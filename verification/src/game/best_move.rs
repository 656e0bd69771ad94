//! Attack detection and the search for the best move.

use vstd::prelude::*;
use crate::consts::{Color, PieceType, CHECK_MATE_SCORE};
use crate::game::moving::{lemma_move_changes_little, lemma_room_fits};
use crate::openings::{random_below, replies, OpeningsDatabase};
use crate::game::{Game, GameView};
use crate::move_struct::{move_views, Move, MoveView};
use crate::piece::{
    all_direction_offsets,
    all_directions,
    basic_moves,
    basic_piece_moves,
    diagonals,
    forward,
    knight_jumps,
    pawn_captures,
    pawn_moves,
    piece_of,
    straights,
    Piece,
};
use crate::game::consistency::lemma_piece_moves_shape;
use crate::types::{at, cord, get_square, sq, Cord, Square};
use crate::utils::{
    far,
    lemma_ray_contains,
    lemma_ray_reaches,
    lemma_rays_join,
    lemma_rays_shape,
    lemma_rays_split,
    lemma_steps_contain,
    lemma_steps_shape,
    open_line,
    rays,
    steps,
    with_offsets,
};

verus! {

/// The kinds of piece whose attacks are found by moving a piece of that kind
/// from the attacked square, in the order in which they are tried.
pub open spec fn ranged_kinds() -> Seq<PieceType> {
    seq![
        PieceType::Knight,
        PieceType::Rook,
        PieceType::Bishop,
        PieceType::Pawn,
        PieceType::Queen,
    ]
}

impl GameView {
    /// A piece of the given kind stands on the square.
    pub open spec fn holds_kind(self, s: Square, kind: PieceType) -> bool {
        at(self.board, s) is Some && at(self.board, s)->0.piece_type == kind
    }

    /// One of the moves ends on a piece of the given kind.
    pub open spec fn lands_on(self, ms: Seq<MoveView>, kind: PieceType) -> bool {
        exists|i: int| 0 <= i < ms.len() && self.holds_kind((#[trigger] ms[i]).to, kind)
    }

    /// Whether a piece of the given kind attacks the square for `attacker`: a
    /// piece of that kind and of the other colour, put on the square, would
    /// have a move that ends on a piece of its own kind.
    pub open spec fn attacked_by_kind(self, s: Square, attacker: Color, kind: PieceType) -> bool {
        self.lands_on(
            basic_moves(kind, attacker.spec_opposite(), s, self.board, self.en_passant),
            kind,
        )
    }

    /// Whether a king attacks the square for `attacker`: one of the eight
    /// squares around it holds a king of that colour.
    pub open spec fn attacked_by_king(self, s: Square, attacker: Color) -> bool {
        self.lands_on(
            steps(attacker.spec_opposite(), s, self.board, all_directions(), true),
            PieceType::King,
        )
    }

    /// Whether the square is under attack from the given colour.
    pub open spec fn attacked(self, s: Square, attacker: Color) -> bool {
        ||| exists|k: int|
            0 <= k < ranged_kinds().len() && self.attacked_by_kind(
                s,
                attacker,
                #[trigger] ranged_kinds()[k],
            )
        ||| self.attacked_by_king(s, attacker)
    }
}

/// The square one step in direction number `j` away.
pub open spec fn neighbour(s: Square, j: int) -> Square {
    s.shift(all_directions()[j].0, all_directions()[j].1)
}

/// The square one knight's jump number `j` away.
pub open spec fn jump(s: Square, j: int) -> Square {
    s.shift(knight_jumps()[j].0, knight_jumps()[j].1)
}

/// The square from which a pawn of the colour captures on `s` by stepping to
/// the side `dx`.
pub open spec fn pawn_post(s: Square, color: Color, dx: int) -> Square {
    s.shift(dx, -forward(color))
}

impl GameView {
    /// The piece stands on the square, which lies on the board.
    pub open spec fn stands(self, p: Piece, s: Square) -> bool {
        s.on_board() && at(self.board, s) == Some(p)
    }
}

/// A king attacks the squares around it: a square is attacked by a king for
/// a side exactly if that side's king stands one step away.
pub proof fn lemma_king_attack(g: GameView, s: Square, attacker: Color)
    ensures
        g.attacked_by_king(s, attacker) <==> exists|j: int|
            0 <= j < 8 && g.stands(piece_of(PieceType::King, attacker), #[trigger] neighbour(s, j)),
{
    let defender = attacker.spec_opposite();
    let ms = steps(defender, s, g.board, all_directions(), true);
    if g.attacked_by_king(s, attacker) {
        let i = choose|i: int| 0 <= i < ms.len() && g.holds_kind((#[trigger] ms[i]).to, PieceType::King);
        let j = lemma_steps_shape(defender, s, g.board, all_directions(), true, i);
        assert(g.stands(piece_of(PieceType::King, attacker), neighbour(s, j)));
    }
    if exists|j: int|
        0 <= j < 8 && g.stands(piece_of(PieceType::King, attacker), #[trigger] neighbour(s, j)) {
        let j = choose|j: int|
            0 <= j < 8 && g.stands(piece_of(PieceType::King, attacker), #[trigger] neighbour(s, j));
        let k = lemma_steps_contain(defender, s, g.board, all_directions(), true, j);
        assert(g.holds_kind(ms[k].to, PieceType::King));
    }
}

/// A knight attacks the squares a jump away: a square is attacked by a
/// knight for a side exactly if a knight of that side stands one jump away.
pub proof fn lemma_knight_attack(g: GameView, s: Square, attacker: Color)
    ensures
        g.attacked_by_kind(s, attacker, PieceType::Knight) <==> exists|j: int|
            0 <= j < 8 && g.stands(piece_of(PieceType::Knight, attacker), #[trigger] jump(s, j)),
{
    let defender = attacker.spec_opposite();
    let ms = steps(defender, s, g.board, knight_jumps(), false);
    assert(ms == basic_moves(PieceType::Knight, defender, s, g.board, g.en_passant));
    if g.attacked_by_kind(s, attacker, PieceType::Knight) {
        let i = choose|i: int|
            0 <= i < ms.len() && g.holds_kind((#[trigger] ms[i]).to, PieceType::Knight);
        let j = lemma_steps_shape(defender, s, g.board, knight_jumps(), false, i);
        assert(g.stands(piece_of(PieceType::Knight, attacker), jump(s, j)));
    }
    if exists|j: int|
        0 <= j < 8 && g.stands(piece_of(PieceType::Knight, attacker), #[trigger] jump(s, j)) {
        let j = choose|j: int|
            0 <= j < 8 && g.stands(piece_of(PieceType::Knight, attacker), #[trigger] jump(s, j));
        let k = lemma_steps_contain(defender, s, g.board, knight_jumps(), false, j);
        assert(g.holds_kind(ms[k].to, PieceType::Knight));
    }
}

/// The directions along which a piece of the kind moves any number of
/// steps: none for a piece that does not.
pub open spec fn lines_of(kind: PieceType) -> Seq<(int, int)> {
    match kind {
        PieceType::Rook => straights(),
        PieceType::Bishop => diagonals(),
        PieceType::Queen => all_directions(),
        _ => Seq::empty(),
    }
}

impl GameView {
    /// The piece stands `n` steps from `s` in direction `d`, with nothing in
    /// between.
    pub open spec fn in_sight(self, p: Piece, s: Square, d: (int, int), n: int) -> bool {
        1 <= n <= 8 && open_line(self.board, s, d, n) && self.stands(p, far(s, d, n))
    }
}

/// Rook, bishop and queen attack along their lines: a square is attacked by
/// one of them for a side exactly if a piece of that kind and side stands on
/// one of the kind's lines from the square, with nothing in between.
pub proof fn lemma_line_attack(g: GameView, s: Square, attacker: Color, kind: PieceType)
    requires
        kind == PieceType::Rook || kind == PieceType::Bishop || kind == PieceType::Queen,
    ensures
        g.attacked_by_kind(s, attacker, kind) <==> exists|j: int, n: int|
            0 <= j < lines_of(kind).len() && #[trigger] g.in_sight(
                piece_of(kind, attacker),
                s,
                lines_of(kind)[j],
                n,
            ),
{
    let defender = attacker.spec_opposite();
    let lines = lines_of(kind);
    let ms = rays(defender, s, g.board, lines, None, true);
    let p = piece_of(kind, attacker);
    assert(ms == basic_moves(kind, defender, s, g.board, g.en_passant));
    if g.attacked_by_kind(s, attacker, kind) {
        let k = choose|k: int| 0 <= k < ms.len() && g.holds_kind((#[trigger] ms[k]).to, kind);
        let found = lemma_rays_split(defender, s, g.board, lines, None, true, k);
        let j = found.0;
        let i = found.1;
        lemma_ray_reaches(defender, s, g.board, lines[j], true, s, 0, i);
        lemma_rays_shape(defender, s, g.board, lines, None, true, k);
        assert(g.in_sight(p, s, lines[j], i + 1));
    }
    if exists|j: int, n: int| 0 <= j < lines.len() && #[trigger] g.in_sight(p, s, lines[j], n) {
        let (j, n) = choose|j: int, n: int|
            0 <= j < lines.len() && #[trigger] g.in_sight(p, s, lines[j], n);
        lemma_ray_contains(defender, s, g.board, lines[j], s, 0, n);
        let k = lemma_rays_join(defender, s, g.board, lines, None, true, j, n - 1);
        assert(g.holds_kind(ms[k].to, kind));
    }
}

/// What attacks a square: where the en-passant target, if there is one, is
/// an empty square, a square of the board is under attack from a side
/// exactly if that side's king stands one step away, or one of its knights
/// one jump away, or one of its pawns one step aside and one step back, or
/// one of its rooks, bishops or queens on one of its lines with nothing in
/// between.
pub proof fn lemma_attack(g: GameView, s: Square, attacker: Color)
    requires
        s.on_board(),
        g.en_passant is Some ==> at(g.board, g.en_passant->0) is None,
    ensures
        g.attacked(s, attacker) <==> {
            ||| exists|j: int|
                0 <= j < 8 && g.stands(
                    piece_of(PieceType::King, attacker),
                    #[trigger] neighbour(s, j),
                )
            ||| exists|j: int|
                0 <= j < 8 && g.stands(piece_of(PieceType::Knight, attacker), #[trigger] jump(s, j))
            ||| g.stands(piece_of(PieceType::Pawn, attacker), pawn_post(s, attacker, 1))
            ||| g.stands(piece_of(PieceType::Pawn, attacker), pawn_post(s, attacker, -1))
            ||| exists|j: int, n: int|
                0 <= j < 4 && #[trigger] g.in_sight(
                    piece_of(PieceType::Rook, attacker),
                    s,
                    straights()[j],
                    n,
                )
            ||| exists|j: int, n: int|
                0 <= j < 4 && #[trigger] g.in_sight(
                    piece_of(PieceType::Bishop, attacker),
                    s,
                    diagonals()[j],
                    n,
                )
            ||| exists|j: int, n: int|
                0 <= j < 8 && #[trigger] g.in_sight(
                    piece_of(PieceType::Queen, attacker),
                    s,
                    all_directions()[j],
                    n,
                )
        },
{
    lemma_king_attack(g, s, attacker);
    lemma_knight_attack(g, s, attacker);
    lemma_pawn_attack(g, s, attacker);
    lemma_line_attack(g, s, attacker, PieceType::Rook);
    lemma_line_attack(g, s, attacker, PieceType::Bishop);
    lemma_line_attack(g, s, attacker, PieceType::Queen);
    let by_knight = g.attacked_by_kind(s, attacker, PieceType::Knight);
    let by_rook = g.attacked_by_kind(s, attacker, PieceType::Rook);
    let by_bishop = g.attacked_by_kind(s, attacker, PieceType::Bishop);
    let by_pawn = g.attacked_by_kind(s, attacker, PieceType::Pawn);
    let by_queen = g.attacked_by_kind(s, attacker, PieceType::Queen);
    let by_ranged = exists|k: int|
        0 <= k < ranged_kinds().len() && g.attacked_by_kind(
            s,
            attacker,
            #[trigger] ranged_kinds()[k],
        );
    assert(by_ranged <==> by_knight || by_rook || by_bishop || by_pawn || by_queen) by {
        assert(ranged_kinds()[0] == PieceType::Knight);
        assert(ranged_kinds()[1] == PieceType::Rook);
        assert(ranged_kinds()[2] == PieceType::Bishop);
        assert(ranged_kinds()[3] == PieceType::Pawn);
        assert(ranged_kinds()[4] == PieceType::Queen);
    }
    assert(lines_of(PieceType::Rook) == straights() && straights().len() == 4);
    assert(lines_of(PieceType::Bishop) == diagonals() && diagonals().len() == 4);
    assert(lines_of(PieceType::Queen) == all_directions() && all_directions().len() == 8);
}

/// A pawn attacks the two squares ahead of it to its sides: where the
/// en-passant target, if there is one, is an empty square, a square is
/// attacked by a pawn for a side exactly if a pawn of that side stands one
/// step aside and one step back, as that side sees it.
pub proof fn lemma_pawn_attack(g: GameView, s: Square, attacker: Color)
    requires
        s.on_board(),
        g.en_passant is Some ==> at(g.board, g.en_passant->0) is None,
    ensures
        g.attacked_by_kind(s, attacker, PieceType::Pawn) <==> g.stands(
            piece_of(PieceType::Pawn, attacker),
            pawn_post(s, attacker, 1),
        ) || g.stands(piece_of(PieceType::Pawn, attacker), pawn_post(s, attacker, -1)),
{
    let defender = attacker.spec_opposite();
    let pawn = piece_of(PieceType::Pawn, defender);
    let ms = pawn_moves(defender, s, g.board, g.en_passant);
    let takes = steps(defender, s, g.board, pawn_captures(defender), true);
    assert(ms == g.piece_moves(PieceType::Pawn, defender, s)) by {
        assert(ms + Seq::<MoveView>::empty() =~= ms);
    }
    assert(forward(defender) == -forward(attacker));
    if g.attacked_by_kind(s, attacker, PieceType::Pawn) {
        let i = choose|i: int|
            0 <= i < ms.len() && g.holds_kind((#[trigger] ms[i]).to, PieceType::Pawn);
        lemma_piece_moves_shape(g, pawn, s, i);
        assert(g.shaped(pawn, s, ms[i]));
        assert(ms[i].to == pawn_post(s, attacker, 1) || ms[i].to == pawn_post(s, attacker, -1));
    }
    if g.stands(piece_of(PieceType::Pawn, attacker), pawn_post(s, attacker, 1)) {
        let k = lemma_steps_contain(defender, s, g.board, pawn_captures(defender), true, 0);
        assert(ms[k] == takes[k]);
        assert(g.holds_kind(ms[k].to, PieceType::Pawn));
    }
    if g.stands(piece_of(PieceType::Pawn, attacker), pawn_post(s, attacker, -1)) {
        let k = lemma_steps_contain(defender, s, g.board, pawn_captures(defender), true, 1);
        assert(ms[k] == takes[k]);
        assert(g.holds_kind(ms[k].to, PieceType::Pawn));
    }
}

impl Game {
    /// Whether one of the moves ends on a piece of the given kind.
    fn lands_on_kind(&self, moves: &Vec<Move>, kind: PieceType) -> (r: bool)
        requires
            forall|i: int| 0 <= i < moves.len() ==> (#[trigger] move_views(moves@)[i]).to.on_board(),
        ensures
            r == self@.lands_on(move_views(moves@), kind),
    {
        let ghost ms = move_views(moves@);
        let mut i: usize = 0;
        while i < moves.len()
            invariant
                i <= moves.len(),
                ms == move_views(moves@),
                forall|i: int| 0 <= i < moves.len() ==> (#[trigger] ms[i]).to.on_board(),
                forall|j: int| 0 <= j < i ==> !self@.holds_kind((#[trigger] ms[j]).to, kind),
            decreases moves.len() - i,
        {
            let mve = moves[i];
            assert(ms[i as int] == mve@);
            let hit = match get_square(&self.board, mve.to[0], mve.to[1]) {
                Some(p) => p.piece_type == kind,
                None => false,
            };
            if hit {
                return true;
            }
            i += 1;
        }
        false
    }

    /// Returns true if the square at the given coordinate is under attack
    /// from the specified color.
    pub fn square_is_attacked(&self, square: Cord, color: Color) -> (r: bool)
        requires
            sq(square).on_board(),
        ensures
            r == self@.attacked(sq(square), color),
    {
        let other_color = color.opposite();
        let kinds: Vec<PieceType> = vec![
            PieceType::Knight,
            PieceType::Rook,
            PieceType::Bishop,
            PieceType::Pawn,
            PieceType::Queen,
        ];
        assert(kinds@ =~= ranged_kinds());
        let mut k: usize = 0;
        while k < kinds.len()
            invariant
                k <= kinds.len(),
                kinds@ == ranged_kinds(),
                sq(square).on_board(),
                other_color == color.spec_opposite(),
                forall|j: int|
                    0 <= j < k ==> !self@.attacked_by_kind(
                        sq(square),
                        color,
                        #[trigger] ranged_kinds()[j],
                    ),
            decreases kinds.len() - k,
        {
            let piece_type = kinds[k];
            let moves = basic_piece_moves(piece_type, other_color, square, self);
            if self.lands_on_kind(&moves, piece_type) {
                assert(self@.attacked_by_kind(sq(square), color, ranged_kinds()[k as int]));
                return true;
            }
            k += 1;
        }
        let around = with_offsets(&other_color, square, self.board, all_direction_offsets(), true);
        self.lands_on_kind(&around, PieceType::King)
    }
}

/// The move that a search returns where there is nothing to choose from.
pub open spec fn idle_move() -> MoveView {
    MoveView { from: Square { x: 0, y: 0 }, to: Square { x: 0, y: 1 }, piece: None }
}

/// A score with the distance to mate taken into account: a score within
/// `max_depth` of the mate score loses one point, a score within `max_depth`
/// of its negation gains one. Quick mates so score higher than slow ones, and
/// slow defeats higher than quick ones.
pub open spec fn by_mate_distance(score: int, max_depth: int) -> int {
    if score > CHECK_MATE_SCORE - max_depth {
        score - 1
    } else if score < -CHECK_MATE_SCORE + max_depth {
        score + 1
    } else {
        score
    }
}

/// Models of a list of moves with their scores.
pub open spec fn ranked_views(v: Seq<(Move, i64)>) -> Seq<(MoveView, int)> {
    Seq::new(v.len(), |i: int| (v[i].0@, v[i].1 as int))
}

/// The place of a new score in a list that is kept in falling order: the
/// first place from `i` on whose score is lower, or the end of the list.
pub open spec fn place_of(list: Seq<(MoveView, int)>, score: int, i: int) -> int
    decreases list.len() - i,
{
    if i < 0 || i >= list.len() {
        list.len() as int
    } else if score > list[i].1 {
        i
    } else {
        place_of(list, score, i + 1)
    }
}

/// The list with a move and its score put in its place.
pub open spec fn with_ranked(list: Seq<(MoveView, int)>, m: MoveView, score: int) -> Seq<
    (MoveView, int),
> {
    list.insert(place_of(list, score, 0), (m, score))
}

/// How many entries at the head of a list, counted from `i` on, come before
/// the first entry whose score is lower than that of the list's head.
pub open spec fn leaders(list: Seq<(MoveView, int)>, i: int) -> int
    decreases list.len() - i,
{
    if i < 1 || i >= list.len() || list[i].1 < list[0].1 {
        i
    } else {
        leaders(list, i + 1)
    }
}

/// The number of moves that share the best score of a ranked list.
pub open spec fn best_count(list: Seq<(MoveView, int)>) -> int {
    leaders(list, 1)
}

impl GameView {
    /// The score of the position in the eyes of the side that has just
    /// moved.
    pub open spec fn standing(self) -> int {
        -(self.on_turn.sign() * self.score_white)
    }

    /// The result of searching the moves `ms` from number `k` on, `depth`
    /// plies deep, with `best` the best score and move found so far.
    ///
    /// Each move is made and the position scored for the mover. A decided
    /// position ends the search with its score and that move. Else the score
    /// is, at depth two and more, the negated result of searching the new
    /// position one ply less deep against the negated best score; it is then
    /// corrected by the distance to mate. A score above `beat` ends the search
    /// with that move; a score above the best becomes the best.
    pub open spec fn search_from(
        self,
        ms: Seq<MoveView>,
        k: int,
        depth: nat,
        max_depth: int,
        beat: int,
        best: (int, MoveView),
    ) -> (int, MoveView)
        decreases depth, 0int, ms.len() - k,
    {
        if k < 0 || k >= ms.len() {
            best
        } else {
            let child = self.after_move(ms[k]);
            if child.is_decided() {
                (child.standing(), ms[k])
            } else {
                let found = if depth > 1 {
                    -child.negamax((depth - 1) as nat, max_depth, -best.0).0
                } else {
                    child.standing()
                };
                let score = by_mate_distance(found, max_depth);
                if score > beat {
                    (score, ms[k])
                } else if score > best.0 {
                    self.search_from(ms, k + 1, depth, max_depth, beat, (score, ms[k]))
                } else {
                    self.search_from(ms, k + 1, depth, max_depth, beat, best)
                }
            }
        }
    }

    /// The score and the move that the search finds for the side to move,
    /// `depth` plies deep: the result of searching all its moves, starting
    /// from the negated mate score and no move.
    pub open spec fn negamax(self, depth: nat, max_depth: int, beat: int) -> (int, MoveView)
        decreases depth, 1int, 0int,
    {
        self.search_from(
            self.all_moves(self.on_turn),
            0,
            depth,
            max_depth,
            beat,
            (-CHECK_MATE_SCORE, idle_move()),
        )
    }

    /// The score of a move at the root of a search of `depth` plies: the
    /// score of a decided position as it stands, and else the negated result
    /// of searching the new position one ply less deep against the mate
    /// score.
    pub open spec fn root_score(self, m: MoveView, depth: nat) -> int {
        let child = self.after_move(m);
        if child.is_decided() {
            child.standing()
        } else {
            -child.negamax((depth - 1) as nat, depth as int, CHECK_MATE_SCORE as int).0
        }
    }

    /// The moves `ms` with their scores at the root, best first; of two moves
    /// with the same score the one that comes first in `ms` comes first.
    pub open spec fn ranking(self, ms: Seq<MoveView>, depth: nat) -> Seq<(MoveView, int)>
        decreases ms.len(),
    {
        if ms.len() == 0 {
            Seq::empty()
        } else {
            with_ranked(
                self.ranking(ms.drop_last(), depth),
                ms.last(),
                self.root_score(ms.last(), depth),
            )
        }
    }

    /// Whether the opening book answers for the position: as many moves were
    /// played as the move counter says, and the book has a reply to them.
    pub open spec fn in_book(self, book: Seq<Seq<MoveView>>) -> bool {
        self.moves.len() == self.fullmove_counter && replies(book, self.moves).len() > 0
    }
}

/// Puts a move and its score in their place in a list that is kept in falling
/// order of score: before the first entry with a lower score.
pub fn insert_ranked(best_moves: &mut Vec<(Move, i64)>, mve: Move, score: i64)
    ensures
        ranked_views(final(best_moves)@) == with_ranked(
            ranked_views(old(best_moves)@),
            mve@,
            score as int,
        ),
{
    let ghost list = ranked_views(best_moves@);
    let mut insert_at: usize = 0;
    while insert_at < best_moves.len() && !(score > best_moves[insert_at].1)
        invariant
            insert_at <= best_moves.len(),
            list == ranked_views(best_moves@),
            place_of(list, score as int, 0) == place_of(list, score as int, insert_at as int),
        decreases best_moves.len() - insert_at,
    {
        assert(list[insert_at as int].1 == best_moves[insert_at as int].1);
        insert_at += 1;
    }
    proof {
        if insert_at < best_moves.len() {
            assert(list[insert_at as int].1 == best_moves[insert_at as int].1);
        }
    }
    best_moves.insert(insert_at, (mve, score));
    assert(ranked_views(best_moves@) =~= list.insert(insert_at as int, (mve@, score as int)));
}

/// The number of moves at the head of a ranked list that share its best
/// score.
pub fn count_best(best_moves: &Vec<(Move, i64)>) -> (n: usize)
    requires
        best_moves.len() > 0,
    ensures
        n == best_count(ranked_views(best_moves@)),
        1 <= n <= best_moves.len(),
{
    let ghost list = ranked_views(best_moves@);
    let mut same_score: usize = 1;
    while same_score < best_moves.len() && !(best_moves[same_score].1 < best_moves[0].1)
        invariant
            1 <= same_score <= best_moves.len(),
            list == ranked_views(best_moves@),
            best_count(list) == leaders(list, same_score as int),
        decreases best_moves.len() - same_score,
    {
        assert(list[same_score as int].1 == best_moves[same_score as int].1);
        assert(list[0].1 == best_moves[0].1);
        same_score += 1;
    }
    proof {
        if same_score < best_moves.len() {
            assert(list[same_score as int].1 == best_moves[same_score as int].1);
            assert(list[0].1 == best_moves[0].1);
        }
    }
    same_score
}

/// The move with the given number among the best of a ranked list, or `None`
/// if fewer moves share the best score.
pub fn best_of(best_moves: &Vec<(Move, i64)>, pick: usize) -> (r: Option<Move>)
    requires
        best_moves.len() > 0,
    ensures
        r is Some == (pick < best_count(ranked_views(best_moves@))),
        r is Some ==> r->0 == best_moves[pick as int].0,
        r is Some ==> r->0@ == ranked_views(best_moves@)[pick as int].0,
{
    if pick < count_best(best_moves) {
        Some(best_moves[pick].0)
    } else {
        None
    }
}

impl Game {
    /// The score of a move at the root of a search of `depth` plies.
    pub fn score_root_move(&self, mve: &Move, depth: u8) -> (score: i64)
        requires
            depth >= 1,
            self@.can_move(mve@),
            self@.has_room(depth as nat + 1),
        ensures
            score == self@.root_score(mve@, depth as nat),
            -CHECK_MATE_SCORE <= score <= CHECK_MATE_SCORE,
    {
        let mut new_game = self.clone();
        new_game.do_move(mve);
        proof {
            lemma_move_changes_little(self@, mve@);
        }
        let standing = -new_game.get_board_score(new_game.on_turn);
        if standing == -CHECK_MATE_SCORE || standing == CHECK_MATE_SCORE {
            standing
        } else {
            let r = new_game.private_get_best_move(depth - 1, depth, CHECK_MATE_SCORE);
            -r.0
        }
    }

    /// The moves of the side to move with their scores at the root of a
    /// search of `depth` plies, best first.
    pub fn rank_moves(&self, depth: u8) -> (best_moves: Vec<(Move, i64)>)
        requires
            depth >= 1,
            self@.has_room(depth as nat + 1),
        ensures
            ranked_views(best_moves@) == self@.ranking(
                self@.all_moves(self.on_turn),
                depth as nat,
            ),
            best_moves.len() == self@.all_moves(self.on_turn).len(),
            forall|i: int| 0 <= i < best_moves.len() ==> (#[trigger] best_moves[i]).0.on_board(),
    {
        let all_moves = self.get_all_moves(self.on_turn);
        let ghost ms = move_views(all_moves@);
        let mut best_moves: Vec<(Move, i64)> = Vec::new();
        let mut idx: usize = 0;
        assert(ms.take(0) =~= Seq::<MoveView>::empty());
        assert(ranked_views(best_moves@) =~= Seq::<(MoveView, int)>::empty());
        while idx < all_moves.len()
            invariant
                idx <= all_moves.len(),
                depth >= 1,
                self@.has_room(depth as nat + 1),
                ms == move_views(all_moves@),
                self@.movable(ms),
                ranked_views(best_moves@) == self@.ranking(ms.take(idx as int), depth as nat),
                best_moves.len() == idx,
                forall|i: int|
                    0 <= i < best_moves.len() ==> (#[trigger] best_moves[i]).0.on_board(),
            decreases all_moves.len() - idx,
        {
            let mve = all_moves[idx];
            proof {
                assert(ms[idx as int] == mve@);
                assert(ms.take(idx + 1).drop_last() =~= ms.take(idx as int));
                assert(ms.take(idx + 1).last() == mve@);
            }
            proof {
                lemma_room_fits(self@, mve@);
            }
            let score = self.score_root_move(&mve, depth);
            let ghost before = best_moves@;
            insert_ranked(&mut best_moves, mve, score);
            proof {
                let place = place_of(ranked_views(before), score as int, 0);
                lemma_place_divides(ranked_views(before), score as int, 0);
                assert(ranked_views(best_moves@).len() == before.len() + 1);
                assert forall|i: int| 0 <= i < best_moves.len() implies (
                #[trigger] best_moves[i]).0.on_board() by {
                    let v = ranked_views(best_moves@)[i];
                    if i < place {
                        assert(v == ranked_views(before)[i]);
                        assert(before[i].0.on_board());
                    } else if i == place {
                        assert(v.0 == mve@);
                    } else {
                        assert(v == ranked_views(before)[i - 1]);
                        assert(before[i - 1].0.on_board());
                    }
                }
            }
            idx += 1;
        }
        assert(ms.take(idx as int) =~= ms);
        best_moves
    }

    /// Returns a move either from the openings database or from the search.
    ///
    /// If the book has a reply to the moves played, one of its replies is
    /// returned, whatever the depth and the state of the game. Otherwise every move of the side to move is scored by a
    /// search of `depth` plies, and one of the moves that share the best score
    /// is returned, picked at random.
    pub fn get_best_move(&self, depth: u8, opening_database: &OpeningsDatabase) -> (best: Move)
        requires
            !self@.in_book(opening_database@) ==> depth >= 1 && self@.has_room(depth as nat + 1)
                && self@.all_moves(self.on_turn).len() > 0,
        ensures
            self@.in_book(opening_database@) ==> replies(opening_database@, self@.moves).contains(
                best@,
            ),
            !self@.in_book(opening_database@) ==> exists|k: int|
                0 <= k < best_count(self@.ranking(self@.all_moves(self.on_turn), depth as nat))
                    && best@ == (#[trigger] self@.ranking(
                    self@.all_moves(self.on_turn),
                    depth as nat,
                )[k]).0,
    {
        if self.moves.len() == self.fullmove_counter {
            match opening_database.find_opening(self.moves.as_slice()) {
                Some(mve) => {
                    return mve;
                },
                None => {},
            }
        }
        let best_moves = self.rank_moves(depth);
        let same_score = count_best(&best_moves);
        let move_idx = random_below(same_score);
        let best = best_moves[move_idx].0;
        assert(best@ == ranked_views(best_moves@)[move_idx as int].0);
        best
    }

    /// Function to calculate the best move for the side to move, `depth`
    /// plies deep, by negamax search with alpha-beta pruning.
    ///
    /// Returns the score and the move found. The search of a move ends early
    /// with a score above `score_to_beat`, which the caller would not accept
    /// anyway, and with the score of a position in which a king was captured.
    pub fn private_get_best_move(&self, depth: u8, maximum_depth: u8, score_to_beat: i64) -> (r: (
        i64,
        Move,
    ))
        requires
            self@.has_room(
                if depth == 0 {
                    1nat
                } else {
                    depth as nat
                },
            ),
        ensures
            (r.0 as int, r.1@) == self@.negamax(
                depth as nat,
                maximum_depth as int,
                score_to_beat as int,
            ),
            -CHECK_MATE_SCORE <= r.0 <= CHECK_MATE_SCORE,
        decreases depth,
    {
        let all_moves = self.get_all_moves(self.on_turn);
        let ghost ms = move_views(all_moves@);
        let mut highest_score: i64 = -CHECK_MATE_SCORE;
        let mut best_move = Move::simple_new(cord(0, 0), cord(0, 1));
        let mut i: usize = 0;
        while i < all_moves.len()
            invariant
                i <= all_moves.len(),
                ms == move_views(all_moves@),
                self@.movable(ms),
                self@.has_room(
                    if depth == 0 {
                        1nat
                    } else {
                        depth as nat
                    },
                ),
                -CHECK_MATE_SCORE <= highest_score <= CHECK_MATE_SCORE,
                self@.search_from(
                    ms,
                    i as int,
                    depth as nat,
                    maximum_depth as int,
                    score_to_beat as int,
                    (highest_score as int, best_move@),
                ) == self@.negamax(depth as nat, maximum_depth as int, score_to_beat as int),
            decreases all_moves.len() - i,
        {
            let mve = all_moves[i];
            assert(ms[i as int] == mve@);
            let mut new_game = self.clone();
            proof {
                lemma_room_fits(self@, mve@);
            }
            new_game.do_move(&mve);
            proof {
                lemma_move_changes_little(self@, mve@);
            }
            let mut game_score: i64 = -new_game.get_board_score(new_game.on_turn);
            if game_score == -CHECK_MATE_SCORE || game_score == CHECK_MATE_SCORE {
                return (game_score, mve);
            }
            if depth > 1 {
                let r = new_game.private_get_best_move(depth - 1, maximum_depth, -highest_score);
                game_score = -r.0;
            }
            if game_score > CHECK_MATE_SCORE - maximum_depth as i64 {
                game_score -= 1;
            } else if game_score < -CHECK_MATE_SCORE + maximum_depth as i64 {
                game_score += 1;
            }
            if game_score > score_to_beat {
                return (game_score, mve);
            }
            if game_score > highest_score {
                highest_score = game_score;
                best_move = mve;
            }
            i += 1;
        }
        (highest_score, best_move)
    }
}

/// The move that a search of moves returns is the best move so far or one of
/// the moves that were still to be searched.
pub proof fn lemma_search_returns_a_move(
    g: GameView,
    ms: Seq<MoveView>,
    k: int,
    depth: nat,
    max_depth: int,
    beat: int,
    best: (int, MoveView),
)
    requires
        0 <= k,
    ensures
        g.search_from(ms, k, depth, max_depth, beat, best).1 == best.1 || exists|i: int|
            k <= i < ms.len() && g.search_from(ms, k, depth, max_depth, beat, best).1 == ms[i],
    decreases ms.len() - k,
{
    if k < ms.len() {
        let child = g.after_move(ms[k]);
        if !child.is_decided() {
            let found = if depth > 1 {
                -child.negamax((depth - 1) as nat, max_depth, -best.0).0
            } else {
                child.standing()
            };
            let score = by_mate_distance(found, max_depth);
            if score > beat {
            } else if score > best.0 {
                lemma_search_returns_a_move(g, ms, k + 1, depth, max_depth, beat, (score, ms[k]));
            } else {
                lemma_search_returns_a_move(g, ms, k + 1, depth, max_depth, beat, best);
            }
        }
    }
}

/// The move that the search finds is one of the moves of the side to move;
/// where that side has no move, the search returns the negated mate score
/// and the idle move.
pub proof fn lemma_negamax_returns_a_move(g: GameView, depth: nat, max_depth: int, beat: int)
    ensures
        g.all_moves(g.on_turn).len() == 0 ==> g.negamax(depth, max_depth, beat) == (
            -CHECK_MATE_SCORE,
            idle_move(),
        ),
        g.all_moves(g.on_turn).len() > 0 ==> g.negamax(depth, max_depth, beat).1 == idle_move()
            || g.all_moves(g.on_turn).contains(g.negamax(depth, max_depth, beat).1),
{
    lemma_search_returns_a_move(
        g,
        g.all_moves(g.on_turn),
        0,
        depth,
        max_depth,
        beat,
        (-CHECK_MATE_SCORE, idle_move()),
    );
}

/// The scores of a list never rise from one entry to the next.
pub open spec fn is_ranked(list: Seq<(MoveView, int)>) -> bool {
    forall|i: int, j: int| 0 <= i < j < list.len() ==> (#[trigger] list[i]).1 >= (#[trigger] list[j]).1
}

/// In a list in falling order, no entry before the place of a new score is
/// lower than that score, and the entry on that place is.
pub proof fn lemma_place_divides(list: Seq<(MoveView, int)>, score: int, i: int)
    requires
        0 <= i <= list.len(),
    ensures
        i <= place_of(list, score, i) <= list.len(),
        forall|j: int| i <= j < place_of(list, score, i) ==> (#[trigger] list[j]).1 >= score,
        place_of(list, score, i) < list.len() ==> list[place_of(list, score, i)].1 < score,
    decreases list.len() - i,
{
    if i < list.len() && !(score > list[i].1) {
        lemma_place_divides(list, score, i + 1);
    }
}

/// A list in falling order with a new entry put in its place is in falling
/// order, and holds the new entry and the old ones and no others.
pub proof fn lemma_with_ranked(list: Seq<(MoveView, int)>, m: MoveView, score: int)
    requires
        is_ranked(list),
    ensures
        is_ranked(with_ranked(list, m, score)),
        with_ranked(list, m, score).len() == list.len() + 1,
        with_ranked(list, m, score).contains((m, score)),
        forall|e: (MoveView, int)| list.contains(e) ==> with_ranked(list, m, score).contains(e),
        forall|e: (MoveView, int)|
            with_ranked(list, m, score).contains(e) ==> e == (m, score) || list.contains(e),
{
    let place = place_of(list, score, 0);
    let longer = with_ranked(list, m, score);
    lemma_place_divides(list, score, 0);
    assert(longer[place] == (m, score));
    assert forall|i: int, j: int| 0 <= i < j < longer.len() implies (#[trigger] longer[i]).1 >= (
    #[trigger] longer[j]).1 by {
        let a = if i < place {
            list[i]
        } else if i == place {
            (m, score)
        } else {
            list[i - 1]
        };
        let b = if j < place {
            list[j]
        } else if j == place {
            (m, score)
        } else {
            list[j - 1]
        };
        assert(longer[i] == a && longer[j] == b);
        if j > place && i < place {
            assert(list[i].1 >= list[j - 1].1);
        }
        if i >= place && place < list.len() {
            assert(j - 1 >= place);
            if j - 1 > place {
                assert(list[place].1 >= list[j - 1].1);
            }
        }
    }
    assert forall|e: (MoveView, int)| list.contains(e) implies longer.contains(e) by {
        let i = choose|i: int| 0 <= i < list.len() && list[i] == e;
        if i < place {
            assert(longer[i] == e);
        } else {
            assert(longer[i + 1] == e);
        }
    }
    assert forall|e: (MoveView, int)| longer.contains(e) implies e == (m, score) || list.contains(
        e,
    ) by {
        let i = choose|i: int| 0 <= i < longer.len() && longer[i] == e;
        if i < place {
            assert(list[i] == e);
        } else if i > place {
            assert(list[i - 1] == e);
        }
    }
}

/// The ranking of moves is in falling order of score, and holds each of the
/// moves with its score at the root, and nothing else.
pub proof fn lemma_ranking(g: GameView, ms: Seq<MoveView>, depth: nat)
    ensures
        is_ranked(g.ranking(ms, depth)),
        g.ranking(ms, depth).len() == ms.len(),
        forall|i: int|
            0 <= i < ms.len() ==> g.ranking(ms, depth).contains(
                (#[trigger] ms[i], g.root_score(ms[i], depth)),
            ),
        forall|k: int|
            0 <= k < ms.len() ==> ms.contains((#[trigger] g.ranking(ms, depth)[k]).0) && g.ranking(
                ms,
                depth,
            )[k].1 == g.root_score(g.ranking(ms, depth)[k].0, depth),
    decreases ms.len(),
{
    if ms.len() > 0 {
        let shorter = ms.drop_last();
        let before = g.ranking(shorter, depth);
        let last = (ms.last(), g.root_score(ms.last(), depth));
        let all = g.ranking(ms, depth);
        lemma_ranking(g, shorter, depth);
        lemma_with_ranked(before, last.0, last.1);
        assert forall|i: int| 0 <= i < ms.len() implies all.contains(
            (#[trigger] ms[i], g.root_score(ms[i], depth)),
        ) by {
            if i < shorter.len() {
                assert(shorter[i] == ms[i]);
                assert(before.contains((shorter[i], g.root_score(shorter[i], depth))));
            }
        }
        assert forall|k: int| 0 <= k < ms.len() implies ms.contains((#[trigger] all[k]).0) && all[k].1
            == g.root_score(all[k].0, depth) by {
            let e = all[k];
            assert(all == with_ranked(before, last.0, last.1));
            assert(with_ranked(before, last.0, last.1).contains(e));
            assert(e == last || before.contains(e));
            if e == last {
                assert(ms[ms.len() - 1] == e.0);
            } else {
                let j = choose|j: int| 0 <= j < before.len() && before[j] == e;
                assert(shorter.contains(before[j].0));
                let i = choose|i: int| 0 <= i < shorter.len() && shorter[i] == e.0;
                assert(ms[i] == e.0);
            }
        }
    }
}

/// The entries that are counted as leaders have the score of the head of the
/// list, where the list is in falling order.
pub proof fn lemma_leaders_share_score(list: Seq<(MoveView, int)>, i: int, k: int)
    requires
        is_ranked(list),
        1 <= i <= list.len(),
        forall|j: int| 0 <= j < i ==> (#[trigger] list[j]).1 == list[0].1,
        0 <= k < leaders(list, i),
    ensures
        leaders(list, i) <= list.len(),
        list[k].1 == list[0].1,
    decreases list.len() - i,
{
    if i < list.len() && !(list[i].1 < list[0].1) {
        assert(list[0].1 >= list[i].1);
        lemma_leaders_share_score(list, i + 1, k);
    }
}

/// The best move is best: each of the moves that share the best score of the
/// ranking is one of the moves of the side to move, and no move of that side
/// has a higher score at the root.
pub proof fn lemma_best_is_best(g: GameView, depth: nat, k: int, i: int)
    requires
        0 <= k < best_count(g.ranking(g.all_moves(g.on_turn), depth)),
        0 <= i < g.all_moves(g.on_turn).len(),
    ensures
        k < g.all_moves(g.on_turn).len(),
        g.all_moves(g.on_turn).contains(g.ranking(g.all_moves(g.on_turn), depth)[k].0),
        g.ranking(g.all_moves(g.on_turn), depth)[k].1 == g.root_score(
            g.ranking(g.all_moves(g.on_turn), depth)[k].0,
            depth,
        ),
        g.ranking(g.all_moves(g.on_turn), depth)[k].1 >= g.root_score(
            g.all_moves(g.on_turn)[i],
            depth,
        ),
{
    let ms = g.all_moves(g.on_turn);
    let list = g.ranking(ms, depth);
    lemma_ranking(g, ms, depth);
    lemma_leaders_share_score(list, 1, k);
    let e = (ms[i], g.root_score(ms[i], depth));
    assert(list.contains(e));
    let j = choose|j: int| 0 <= j < list.len() && list[j] == e;
    if j > 0 {
        assert(list[0].1 >= list[j].1);
    }
}

} // verus!
