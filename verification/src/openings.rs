//! The opening book: a list of known openings, read from a text, and the
//! search for a reply to the moves played so far.

use vstd::prelude::*;
use rand::Rng;
use crate::move_struct::{move_of_text, move_views, Move, MoveView};
use crate::text::{chars_of, split, split_chars, texts};

verus! {

/// One opening of the book.
#[derive(Clone)]
struct Opening {
    moves: Vec<Move>,
}

/// The opening book: a list of openings, each a list of moves.
#[derive(Clone)]
pub struct OpeningsDatabase {
    openings: Vec<Opening>,
}

impl View for OpeningsDatabase {
    type V = Seq<Seq<MoveView>>;

    /// The openings of the book, each as the sequence of its moves.
    closed spec fn view(&self) -> Seq<Seq<MoveView>> {
        Seq::new(self.openings@.len(), |i: int| move_views(self.openings@[i].moves@))
    }
}

/// What reading a book has found up to some line: whether a code and a name
/// were seen since the last opening was complete, the moves that were seen
/// since then, and the openings that are complete.
pub struct BookState {
    pub eco: bool,
    pub name: bool,
    pub moves: Option<Seq<MoveView>>,
    pub openings: Seq<Seq<MoveView>>,
}

/// The word that starts the line with an opening's code.
pub open spec fn eco_word() -> Seq<char> {
    seq!['E', 'C', 'O']
}

/// The word that starts the line with an opening's name.
pub open spec fn name_word() -> Seq<char> {
    seq!['N', 'A', 'M', 'E']
}

/// The word that starts the line with an opening's moves.
pub open spec fn uci_word() -> Seq<char> {
    seq!['U', 'C', 'I']
}

/// The moves that a list of words names, if each of them is a move in long
/// algebraic notation.
pub open spec fn moves_of_words(ws: Seq<Seq<char>>) -> Option<Seq<MoveView>>
    decreases ws.len(),
{
    if ws.len() == 0 {
        Some(Seq::empty())
    } else {
        match (moves_of_words(ws.drop_last()), move_of_text(ws.last())) {
            (Some(ms), Some(m)) => Some(ms.push(m)),
            _ => None,
        }
    }
}

/// The state with an opening made of what was seen, once code, name and
/// moves have all been seen.
pub open spec fn completed(state: BookState) -> BookState {
    if state.eco && state.name && state.moves is Some {
        BookState {
            eco: false,
            name: false,
            moves: None,
            openings: state.openings.push(state.moves->0),
        }
    } else {
        state
    }
}

/// The state after one more line. A line is split at single blanks and told
/// by its first word: `ECO` must be followed by a code, `NAME` by anything,
/// `UCI` by moves in long algebraic notation and nothing else. Any other
/// line is passed over. `None` for a line that breaks these rules.
pub open spec fn after_line(state: BookState, line: Seq<char>) -> Option<BookState> {
    let ws = split(line, Some(' '));
    if ws[0] == eco_word() {
        if ws.len() >= 2 {
            Some(completed(BookState { eco: true, ..state }))
        } else {
            None
        }
    } else if ws[0] == name_word() {
        Some(completed(BookState { name: true, ..state }))
    } else if ws[0] == uci_word() {
        match moves_of_words(ws.skip(1)) {
            Some(ms) => Some(completed(BookState { moves: Some(ms), ..state })),
            None => None,
        }
    } else {
        Some(completed(state))
    }
}

/// The state after a list of lines, starting with nothing seen.
pub open spec fn after_lines(lines: Seq<Seq<char>>) -> Option<BookState>
    decreases lines.len(),
{
    if lines.len() == 0 {
        Some(BookState { eco: false, name: false, moves: None, openings: Seq::empty() })
    } else {
        match after_lines(lines.drop_last()) {
            Some(state) => after_line(state, lines.last()),
            None => None,
        }
    }
}

/// The openings that the text of a book holds, in their order; `None` for a
/// text with a line that breaks the rules.
pub open spec fn book_of_text(s: Seq<char>) -> Option<Seq<Seq<MoveView>>> {
    match after_lines(split(s, Some('\n'))) {
        Some(state) => Some(state.openings),
        None => None,
    }
}

/// Two moves go from the same square to the same square.
pub open spec fn same_squares(a: MoveView, b: MoveView) -> bool {
    a.from == b.from && a.to == b.to
}

/// The opening has more moves than were played, and starts with the moves
/// that were played, square by square.
pub open spec fn continues(opening: Seq<MoveView>, history: Seq<MoveView>) -> bool {
    opening.len() > history.len() && forall|i: int|
        0 <= i < history.len() ==> same_squares(#[trigger] opening[i], history[i])
}

/// The replies that the first `n` openings of a book give to the moves that
/// were played: the next move of each opening that continues them, in the
/// order of the book.
pub open spec fn replies_before(book: Seq<Seq<MoveView>>, history: Seq<MoveView>, n: int) -> Seq<
    MoveView,
>
    decreases n,
{
    if n <= 0 {
        Seq::empty()
    } else if continues(book[n - 1], history) {
        replies_before(book, history, n - 1).push(book[n - 1][history.len() as int])
    } else {
        replies_before(book, history, n - 1)
    }
}

/// The replies that a book gives to the moves that were played.
pub open spec fn replies(book: Seq<Seq<MoveView>>, history: Seq<MoveView>) -> Seq<MoveView> {
    replies_before(book, history, book.len() as int)
}

/// Every reply is the next move of an opening that continues the moves that
/// were played.
pub proof fn lemma_reply_is_from_book(
    book: Seq<Seq<MoveView>>,
    history: Seq<MoveView>,
    n: int,
    k: int,
) -> (i: int)
    requires
        0 <= n <= book.len(),
        0 <= k < replies_before(book, history, n).len(),
    ensures
        0 <= i < n,
        continues(book[i], history),
        replies_before(book, history, n)[k] == book[i][history.len() as int],
    decreases n,
{
    if continues(book[n - 1], history) && k == replies_before(book, history, n - 1).len() {
        n - 1
    } else {
        lemma_reply_is_from_book(book, history, n - 1, k)
    }
}

/// The next move of every opening that continues the moves that were played
/// is among the replies.
pub proof fn lemma_book_gives_reply(
    book: Seq<Seq<MoveView>>,
    history: Seq<MoveView>,
    n: int,
    i: int,
)
    requires
        0 <= i < n <= book.len(),
        continues(book[i], history),
    ensures
        replies_before(book, history, n).contains(book[i][history.len() as int]),
    decreases n,
{
    let here = replies_before(book, history, n);
    if i == n - 1 {
        assert(here[here.len() - 1] == book[i][history.len() as int]);
    } else {
        lemma_book_gives_reply(book, history, n - 1, i);
        let before = replies_before(book, history, n - 1);
        let k = choose|k: int| 0 <= k < before.len() && before[k] == book[i][history.len() as int];
        assert(here[k] == before[k]);
    }
}

/// Whoever has played the beginning of an opening of the book gets a reply
/// from the book, and the reply is the next move of an opening that
/// continues what was played. Where all those openings go on with the same
/// move, that move is the reply; where they differ, the reply is the next
/// move of one of them.
pub proof fn lemma_opening_prefix(
    book: Seq<Seq<MoveView>>,
    history: Seq<MoveView>,
    i: int,
    reply: MoveView,
)
    requires
        0 <= i < book.len(),
        continues(book[i], history),
        replies(book, history).contains(reply),
    ensures
        replies(book, history).len() > 0,
        exists|j: int|
            0 <= j < book.len() && continues(#[trigger] book[j], history) && reply
                == book[j][history.len() as int],
        (forall|j: int|
            0 <= j < book.len() && continues(#[trigger] book[j], history)
                ==> book[j][history.len() as int] == book[i][history.len() as int]) ==> reply
            == book[i][history.len() as int],
{
    lemma_book_gives_reply(book, history, book.len() as int, i);
    let all = replies(book, history);
    let k = choose|k: int| 0 <= k < all.len() && all[k] == reply;
    let j = lemma_reply_is_from_book(book, history, book.len() as int, k);
    assert(continues(book[j], history));
}

/// A book cannot be read if one of its beginnings cannot.
pub proof fn lemma_after_lines_prefix(lines: Seq<Seq<char>>, n: int)
    requires
        0 <= n <= lines.len(),
        after_lines(lines.take(n)) is None,
    ensures
        after_lines(lines) is None,
    decreases lines.len() - n,
{
    if n < lines.len() {
        assert(lines.take(n + 1).drop_last() =~= lines.take(n));
        lemma_after_lines_prefix(lines, n + 1);
    } else {
        assert(lines.take(n) =~= lines);
    }
}

/// A list of words names no moves if one of its beginnings names none.
pub proof fn lemma_moves_of_words_prefix(ws: Seq<Seq<char>>, n: int)
    requires
        0 <= n <= ws.len(),
        moves_of_words(ws.take(n)) is None,
    ensures
        moves_of_words(ws) is None,
    decreases ws.len() - n,
{
    if n < ws.len() {
        assert(ws.take(n + 1).drop_last() =~= ws.take(n));
        lemma_moves_of_words_prefix(ws, n + 1);
    } else {
        assert(ws.take(n) =~= ws);
    }
}

/// Draws a number below `n`.
///
/// Calls `gen_range` of the crate `rand` on the thread's generator with the
/// range `0..n`. The generator panics on an empty range, so `n` must not be
/// zero. All that is claimed of the outcome is that it lies in the range.
#[verifier::external_body]
pub(crate) fn random_below(n: usize) -> (r: usize)
    requires
        n > 0,
    ensures
        r < n,
{
    rand::thread_rng().gen_range(0..n)
}

/// Whether the word is `ECO`.
fn is_eco(word: &Vec<char>) -> (r: bool)
    ensures
        r == (word@ == eco_word()),
{
    let r = word.len() == 3 && word[0] == 'E' && word[1] == 'C' && word[2] == 'O';
    assert(r == (word@ =~= eco_word()));
    r
}

/// Whether the word is `NAME`.
fn is_name(word: &Vec<char>) -> (r: bool)
    ensures
        r == (word@ == name_word()),
{
    let r = word.len() == 4 && word[0] == 'N' && word[1] == 'A' && word[2] == 'M' && word[3] == 'E';
    assert(r == (word@ =~= name_word()));
    r
}

/// Whether the word is `UCI`.
fn is_uci(word: &Vec<char>) -> (r: bool)
    ensures
        r == (word@ == uci_word()),
{
    let r = word.len() == 3 && word[0] == 'U' && word[1] == 'C' && word[2] == 'I';
    assert(r == (word@ =~= uci_word()));
    r
}

/// Reads the moves of a line from its words, the first word left aside.
fn read_moves(ws: &Vec<Vec<char>>) -> (r: Option<Vec<Move>>)
    requires
        ws.len() >= 1,
    ensures
        r is Some == moves_of_words(texts(ws@).skip(1)) is Some,
        r is Some ==> move_views(r->0@) == moves_of_words(texts(ws@).skip(1))->0,
        r is Some ==> forall|i: int| 0 <= i < r->0.len() ==> (#[trigger] r->0[i]).on_board(),
{
    let ghost named = texts(ws@).skip(1);
    let mut moves: Vec<Move> = Vec::new();
    let mut i: usize = 1;
    assert(named.take(0) =~= Seq::<Seq<char>>::empty());
    assert(move_views(moves@) =~= Seq::<MoveView>::empty());
    while i < ws.len()
        invariant
            1 <= i <= ws.len(),
            named == texts(ws@).skip(1),
            moves_of_words(named.take(i - 1)) == Some(move_views(moves@)),
            forall|k: int| 0 <= k < moves.len() ==> (#[trigger] moves[k]).on_board(),
        decreases ws.len() - i,
    {
        let ghost before = move_views(moves@);
        proof {
            assert(named.take(i as int).drop_last() =~= named.take(i - 1));
            assert(named.take(i as int).last() == ws[i as int]@);
        }
        match Move::from_chars(&ws[i]) {
            Some(m) => {
                moves.push(m);
                assert(move_views(moves@) =~= before.push(m@));
            },
            None => {
                proof {
                    lemma_moves_of_words_prefix(named, i as int);
                }
                return None;
            },
        }
        i += 1;
    }
    assert(named.take(i - 1) =~= named);
    Some(moves)
}

impl OpeningsDatabase {
    /// The book holds well-formed moves only.
    pub closed spec fn wf(&self) -> bool {
        forall|i: int, k: int|
            0 <= i < self.openings.len() && 0 <= k < self.openings[i].moves.len() ==> (
            #[trigger] self.openings[i].moves[k]).on_board()
    }

    /// Reads a book from its text; `None` for a text with a line that breaks
    /// the rules.
    ///
    /// The text is a list of lines. Each opening is given by a line `ECO`
    /// with its code, a line `NAME` with its name and a line `UCI` with its
    /// moves in long algebraic notation, separated by single blanks.
    pub fn parse(contents: &str) -> (r: Option<OpeningsDatabase>)
        ensures
            r is Some == book_of_text(contents@) is Some,
            r is Some ==> r->0@ == book_of_text(contents@)->0,
            r is Some ==> r->0.wf(),
    {
        let chars = chars_of(contents);
        let lines = split_chars(&chars, Some('\n'));
        let ghost all = texts(lines@);
        let mut openings: Vec<Opening> = Vec::new();
        let mut eco = false;
        let mut name = false;
        let mut moves: Option<Vec<Move>> = None;
        let mut i: usize = 0;
        assert(all.take(0) =~= Seq::<Seq<char>>::empty());
        assert(Seq::new(openings@.len(), |j: int| move_views(openings@[j].moves@))
            =~= Seq::<Seq<MoveView>>::empty());
        while i < lines.len()
            invariant
                i <= lines.len(),
                all == texts(lines@),
                all == split(contents@, Some('\n')),
                after_lines(all.take(i as int)) == Some(
                    BookState {
                        eco,
                        name,
                        moves: match moves {
                            Some(ms) => Some(move_views(ms@)),
                            None => None,
                        },
                        openings: Seq::new(
                            openings@.len(),
                            |j: int| move_views(openings@[j].moves@),
                        ),
                    },
                ),
                moves is Some ==> forall|k: int|
                    0 <= k < moves->0.len() ==> (#[trigger] moves->0[k]).on_board(),
                forall|j: int, k: int|
                    0 <= j < openings.len() && 0 <= k < openings[j].moves.len() ==> (
                    #[trigger] openings[j].moves[k]).on_board(),
            decreases lines.len() - i,
        {
            let ghost state = after_lines(all.take(i as int))->0;
            proof {
                assert(all.take(i + 1).drop_last() =~= all.take(i as int));
                assert(all.take(i + 1).last() == lines[i as int]@);
            }
            let ws = split_chars(&lines[i], Some(' '));
            assert(texts(ws@)[0] == ws[0]@);
            if is_eco(&ws[0]) {
                if ws.len() < 2 {
                    proof {
                        lemma_after_lines_prefix(all, i + 1);
                    }
                    return None;
                }
                eco = true;
            } else if is_name(&ws[0]) {
                name = true;
            } else if is_uci(&ws[0]) {
                match read_moves(&ws) {
                    Some(ms) => {
                        moves = Some(ms);
                    },
                    None => {
                        proof {
                            lemma_after_lines_prefix(all, i + 1);
                        }
                        return None;
                    },
                }
            }
            if eco && name && moves.is_some() {
                let ghost done = Seq::new(openings@.len(), |j: int| move_views(openings@[j].moves@));
                let ms = moves.unwrap();
                openings.push(Opening { moves: ms });
                eco = false;
                name = false;
                moves = None;
                assert(Seq::new(openings@.len(), |j: int| move_views(openings@[j].moves@))
                    =~= done.push(move_views(ms@)));
            }
            i += 1;
        }
        assert(all.take(i as int) =~= all);
        Some(OpeningsDatabase { openings })
    }

    /// Open new OpeningsDatabase from the text of a book.
    pub fn new(contents: &str) -> (db: OpeningsDatabase)
        requires
            book_of_text(contents@) is Some,
        ensures
            db@ == book_of_text(contents@)->0,
            db.wf(),
    {
        match OpeningsDatabase::parse(contents) {
            Some(db) => db,
            None => unreached(),
        }
    }

    /// The replies that the book gives to the moves that were played: the
    /// next move of each opening that continues them, in the order of the
    /// book.
    pub fn find_replies(&self, moves: &[Move]) -> (found: Vec<Move>)
        ensures
            move_views(found@) == replies(self@, move_views(moves@)),
            self.wf() ==> forall|i: int| 0 <= i < found.len() ==> (#[trigger] found[i]).on_board(),
    {
        let ghost book = self@;
        let ghost history = move_views(moves@);
        let mut found: Vec<Move> = Vec::new();
        let mut n: usize = 0;
        assert(move_views(found@) =~= Seq::<MoveView>::empty());
        while n < self.openings.len()
            invariant
                n <= self.openings.len(),
                book == self@,
                book.len() == self.openings.len(),
                history == move_views(moves@),
                move_views(found@) == replies_before(book, history, n as int),
                self.wf() ==> forall|i: int|
                    0 <= i < found.len() ==> (#[trigger] found[i]).on_board(),
            decreases self.openings.len() - n,
        {
            let opening = &self.openings[n];
            assert(book[n as int] == move_views(opening.moves@));
            if opening.moves.len() > moves.len() {
                let mut identical = true;
                let mut idx: usize = 0;
                while idx < moves.len()
                    invariant
                        idx <= moves.len() < opening.moves.len(),
                        history == move_views(moves@),
                        book[n as int] == move_views(opening.moves@),
                        identical == forall|i: int|
                            0 <= i < idx ==> same_squares(#[trigger] book[n as int][i], history[i]),
                    decreases moves.len() - idx,
                {
                    let a = opening.moves[idx];
                    let b = moves[idx];
                    assert(book[n as int][idx as int] == a@);
                    assert(history[idx as int] == b@);
                    let same = a.from[0] == b.from[0] && a.from[1] == b.from[1] && a.to[0]
                        == b.to[0] && a.to[1] == b.to[1];
                    assert(same == same_squares(a@, b@));
                    if !same {
                        identical = false;
                    }
                    idx += 1;
                }
                if identical {
                    let ghost before = move_views(found@);
                    let next = opening.moves[moves.len()];
                    found.push(next);
                    assert(move_views(found@) =~= before.push(next@));
                    assert(self.wf() ==> next.on_board());
                }
            }
            n += 1;
        }
        found
    }

    /// Search for an opening with the specified move history.
    ///
    /// Returns the next move of an opening that continues the history, picked
    /// at random among the replies of the book, or `None` if the book has no
    /// reply.
    pub fn find_opening(&self, moves: &[Move]) -> (r: Option<Move>)
        ensures
            r is Some == (replies(self@, move_views(moves@)).len() > 0),
            r is Some ==> replies(self@, move_views(moves@)).contains(r->0@),
            r is Some && self.wf() ==> r->0.on_board(),
    {
        let found = self.find_replies(moves);
        if found.len() > 0 {
            let pick = random_below(found.len());
            pick_move(&found, pick)
        } else {
            None
        }
    }
}

/// The move with the given number in a list, or `None` if the list is not
/// that long.
pub fn pick_move(found: &Vec<Move>, pick: usize) -> (r: Option<Move>)
    ensures
        r is Some == (pick < found.len()),
        r is Some ==> r->0 == found[pick as int],
        r is Some ==> r->0@ == move_views(found@)[pick as int],
{
    if pick < found.len() {
        Some(found[pick])
    } else {
        None
    }
}

} // verus!
