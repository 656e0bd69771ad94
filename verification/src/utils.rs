//! Stepping over the board from a square, and reading the name of a square.

use vstd::prelude::*;
use crate::consts::Color;
use crate::move_struct::{move_views, parse_file, parse_rank, square_of_text, Move, MoveView};
use crate::piece::Piece;
use crate::text::chars_of;
use crate::types::{at, board_view, cord, get_square, sq, Board, Cord, Square};

verus! {

/// Model of a list of offsets: pairs of a step in files and a step in ranks.
pub open spec fn offset_views(offsets: Seq<[i8; 2]>) -> Seq<(int, int)> {
    Seq::new(offsets.len(), |i: int| (offsets[i][0] as int, offsets[i][1] as int))
}

/// The move from `from` to `to` that names no piece.
pub open spec fn plain_move(from: Square, to: Square) -> MoveView {
    MoveView { from, to, piece: None }
}

/// Every move of the sequence starts on `from` and ends on the board.
pub open spec fn moves_start_on(ms: Seq<MoveView>, from: Square) -> bool {
    forall|i: int| 0 <= i < ms.len() ==> (#[trigger] ms[i]).from == from && ms[i].to.on_board()
}

/// The moves of one step by `(dx, dy)`: none if the step leaves the board or
/// ends on a piece of `color`; the step itself if it ends on a piece of the
/// other colour, or on an empty square unless the step has to take.
pub open spec fn step(
    color: Color,
    from: Square,
    bv: Seq<Option<Piece>>,
    d: (int, int),
    has_to_take: bool,
) -> Seq<MoveView> {
    let to = from.shift(d.0, d.1);
    if !to.on_board() {
        Seq::empty()
    } else {
        match at(bv, to) {
            Some(p) => if p.color != color {
                seq![plain_move(from, to)]
            } else {
                Seq::empty()
            },
            None => if !has_to_take {
                seq![plain_move(from, to)]
            } else {
                Seq::empty()
            },
        }
    }
}

/// The moves of single steps by each of the offsets, in their order.
pub open spec fn steps(
    color: Color,
    from: Square,
    bv: Seq<Option<Piece>>,
    offsets: Seq<(int, int)>,
    has_to_take: bool,
) -> Seq<MoveView>
    decreases offsets.len(),
{
    if offsets.len() == 0 {
        Seq::empty()
    } else {
        steps(color, from, bv, offsets.drop_last(), has_to_take) + step(
            color,
            from,
            bv,
            offsets.last(),
            has_to_take,
        )
    }
}

/// The moves along one direction `d`, for a walk that started on `from`, has
/// come `dist` steps far and stands on `cur`. The walk goes on over empty
/// squares, each of which is a move. It ends at the edge of the board, on the
/// first piece, which is a move if it is of the other colour and taking is
/// allowed, and after the step whose number is the limit.
pub open spec fn ray(
    color: Color,
    from: Square,
    bv: Seq<Option<Piece>>,
    d: (int, int),
    limit: Option<int>,
    take: bool,
    cur: Square,
    dist: int,
) -> Seq<MoveView>
    decreases 8 - dist,
{
    let to = cur.shift(d.0, d.1);
    if dist >= 8 || !to.on_board() {
        Seq::empty()
    } else {
        match at(bv, to) {
            Some(p) => if p.color != color && take {
                seq![plain_move(from, to)]
            } else {
                Seq::empty()
            },
            None => seq![plain_move(from, to)] + (if limit == Some(dist + 1) {
                Seq::empty()
            } else {
                ray(color, from, bv, d, limit, take, to, dist + 1)
            }),
        }
    }
}

/// The moves along each of the directions, in their order.
pub open spec fn rays(
    color: Color,
    from: Square,
    bv: Seq<Option<Piece>>,
    offsets: Seq<(int, int)>,
    limit: Option<int>,
    take: bool,
) -> Seq<MoveView>
    decreases offsets.len(),
{
    if offsets.len() == 0 {
        Seq::empty()
    } else {
        rays(color, from, bv, offsets.drop_last(), limit, take) + ray(
            color,
            from,
            bv,
            offsets.last(),
            limit,
            take,
            from,
            0,
        )
    }
}

/// Every move of single steps starts on `from`, names no piece, ends on the
/// board one of the steps away, and never on a piece of its own colour; a
/// step that has to take ends on a piece.
pub proof fn lemma_steps_shape(
    color: Color,
    from: Square,
    bv: Seq<Option<Piece>>,
    offsets: Seq<(int, int)>,
    has_to_take: bool,
    k: int,
) -> (j: int)
    requires
        0 <= k < steps(color, from, bv, offsets, has_to_take).len(),
    ensures
        0 <= j < offsets.len(),
        steps(color, from, bv, offsets, has_to_take)[k] == plain_move(
            from,
            from.shift(offsets[j].0, offsets[j].1),
        ),
        from.shift(offsets[j].0, offsets[j].1).on_board(),
        at(bv, from.shift(offsets[j].0, offsets[j].1)) is Some ==> at(
            bv,
            from.shift(offsets[j].0, offsets[j].1),
        )->0.color != color,
        has_to_take ==> at(bv, from.shift(offsets[j].0, offsets[j].1)) is Some,
    decreases offsets.len(),
{
    let before = steps(color, from, bv, offsets.drop_last(), has_to_take);
    if k < before.len() {
        lemma_steps_shape(color, from, bv, offsets.drop_last(), has_to_take, k)
    } else {
        offsets.len() - 1
    }
}

/// Every move of a walk starts on `from`, names no piece, ends on the board,
/// and never on a piece of its own colour.
pub proof fn lemma_ray_shape(
    color: Color,
    from: Square,
    bv: Seq<Option<Piece>>,
    d: (int, int),
    limit: Option<int>,
    take: bool,
    cur: Square,
    dist: int,
    k: int,
)
    requires
        0 <= k < ray(color, from, bv, d, limit, take, cur, dist).len(),
    ensures
        ({
            let m = ray(color, from, bv, d, limit, take, cur, dist)[k];
            &&& m.from == from
            &&& m.piece is None
            &&& m.to.on_board()
            &&& at(bv, m.to) is Some ==> at(bv, m.to)->0.color != color
        }),
    decreases 8 - dist,
{
    let to = cur.shift(d.0, d.1);
    if k > 0 {
        lemma_ray_shape(color, from, bv, d, limit, take, to, dist + 1, k - 1);
    }
}

/// Every move of walks along several directions starts on `from`, names no
/// piece, ends on the board, and never on a piece of its own colour.
pub proof fn lemma_rays_shape(
    color: Color,
    from: Square,
    bv: Seq<Option<Piece>>,
    offsets: Seq<(int, int)>,
    limit: Option<int>,
    take: bool,
    k: int,
)
    requires
        0 <= k < rays(color, from, bv, offsets, limit, take).len(),
    ensures
        ({
            let m = rays(color, from, bv, offsets, limit, take)[k];
            &&& m.from == from
            &&& m.piece is None
            &&& m.to.on_board()
            &&& at(bv, m.to) is Some ==> at(bv, m.to)->0.color != color
        }),
    decreases offsets.len(),
{
    let before = rays(color, from, bv, offsets.drop_last(), limit, take);
    if k < before.len() {
        lemma_rays_shape(color, from, bv, offsets.drop_last(), limit, take, k);
    } else {
        lemma_ray_shape(color, from, bv, offsets.last(), limit, take, from, 0, k - before.len());
    }
}

/// A step that ends on the board, and on a piece of the other colour or on
/// an empty square that it may step on, is among the moves of single steps.
pub proof fn lemma_steps_contain(
    color: Color,
    from: Square,
    bv: Seq<Option<Piece>>,
    offsets: Seq<(int, int)>,
    has_to_take: bool,
    j: int,
) -> (k: int)
    requires
        0 <= j < offsets.len(),
        from.shift(offsets[j].0, offsets[j].1).on_board(),
        match at(bv, from.shift(offsets[j].0, offsets[j].1)) {
            Some(p) => p.color != color,
            None => !has_to_take,
        },
    ensures
        0 <= k < steps(color, from, bv, offsets, has_to_take).len(),
        steps(color, from, bv, offsets, has_to_take)[k] == plain_move(
            from,
            from.shift(offsets[j].0, offsets[j].1),
        ),
    decreases offsets.len(),
{
    let before = steps(color, from, bv, offsets.drop_last(), has_to_take);
    if j == offsets.len() - 1 {
        before.len() as int
    } else {
        lemma_steps_contain(color, from, bv, offsets.drop_last(), has_to_take, j)
    }
}

/// The square `n` steps from `s` in direction `d`.
pub open spec fn far(s: Square, d: (int, int), n: int) -> Square
    decreases n,
{
    if n <= 0 {
        s
    } else {
        far(s, d, n - 1).shift(d.0, d.1)
    }
}

/// The line from `s` in direction `d` is open for `n` steps: the squares
/// before the `n`th lie on the board and are empty.
pub open spec fn open_line(bv: Seq<Option<Piece>>, s: Square, d: (int, int), n: int) -> bool {
    forall|i: int| 1 <= i < n ==> (#[trigger] far(s, d, i)).on_board() && at(bv, far(s, d, i)) is None
}

/// Stepping first and then going `n` steps is going `n + 1` steps.
pub proof fn lemma_far_after_step(s: Square, d: (int, int), n: int)
    requires
        n >= 0,
    ensures
        far(s.shift(d.0, d.1), d, n) == far(s, d, n + 1),
    decreases n,
{
    reveal_with_fuel(far, 2);
    if n > 0 {
        lemma_far_after_step(s, d, n - 1);
    }
}

/// A line that is open from the next square on is open from this square, if
/// the next square is empty and on the board.
pub proof fn lemma_open_line_after_step(bv: Seq<Option<Piece>>, s: Square, d: (int, int), n: int)
    requires
        n >= 1,
    ensures
        open_line(bv, s, d, n + 1) <==> (n >= 1 ==> s.shift(d.0, d.1).on_board() && at(
            bv,
            s.shift(d.0, d.1),
        ) is None && open_line(bv, s.shift(d.0, d.1), d, n)),
{
    let next = s.shift(d.0, d.1);
    assert(far(s, d, 1) == next) by {
        reveal_with_fuel(far, 2);
    }
    if open_line(bv, s, d, n + 1) {
        assert(far(s, d, 1).on_board());
        assert forall|i: int| 1 <= i < n implies (#[trigger] far(next, d, i)).on_board() && at(
            bv,
            far(next, d, i),
        ) is None by {
            lemma_far_after_step(s, d, i);
            assert(far(s, d, i + 1).on_board());
        }
    }
    if next.on_board() && at(bv, next) is None && open_line(bv, next, d, n) {
        assert forall|i: int| 1 <= i < n + 1 implies (#[trigger] far(s, d, i)).on_board() && at(
            bv,
            far(s, d, i),
        ) is None by {
            if i > 1 {
                lemma_far_after_step(s, d, i - 1);
                assert(far(next, d, i - 1).on_board());
            }
        }
    }
}

/// Move number `k` of an unlimited walk goes `k + 1` steps along an open
/// line.
pub proof fn lemma_ray_reaches(
    color: Color,
    from: Square,
    bv: Seq<Option<Piece>>,
    d: (int, int),
    take: bool,
    cur: Square,
    dist: int,
    k: int,
)
    requires
        0 <= k < ray(color, from, bv, d, None, take, cur, dist).len(),
    ensures
        ray(color, from, bv, d, None, take, cur, dist)[k] == plain_move(from, far(cur, d, k + 1)),
        far(cur, d, k + 1).on_board(),
        open_line(bv, cur, d, k + 1),
        k + 1 <= 8 - dist,
    decreases 8 - dist,
{
    let to = cur.shift(d.0, d.1);
    assert(far(cur, d, 1) == to) by {
        reveal_with_fuel(far, 2);
    }
    if k > 0 {
        lemma_ray_reaches(color, from, bv, d, take, to, dist + 1, k - 1);
        lemma_far_after_step(cur, d, k);
        lemma_open_line_after_step(bv, cur, d, k);
    }
}

/// A piece of the other colour at the end of an open line is reached by an
/// unlimited walk that may take.
pub proof fn lemma_ray_contains(
    color: Color,
    from: Square,
    bv: Seq<Option<Piece>>,
    d: (int, int),
    cur: Square,
    dist: int,
    n: int,
)
    requires
        1 <= n <= 8 - dist,
        open_line(bv, cur, d, n),
        far(cur, d, n).on_board(),
        at(bv, far(cur, d, n)) is Some,
        at(bv, far(cur, d, n))->0.color != color,
    ensures
        n <= ray(color, from, bv, d, None, true, cur, dist).len(),
        ray(color, from, bv, d, None, true, cur, dist)[n - 1] == plain_move(from, far(cur, d, n)),
    decreases n,
{
    let to = cur.shift(d.0, d.1);
    assert(far(cur, d, 1) == to) by {
        reveal_with_fuel(far, 2);
    }
    if n > 1 {
        lemma_open_line_after_step(bv, cur, d, n - 1);
        lemma_far_after_step(cur, d, n - 1);
        lemma_ray_contains(color, from, bv, d, to, dist + 1, n - 1);
    }
}

/// Every move of walks along several directions is a move of the walk along
/// one of them.
pub proof fn lemma_rays_split(
    color: Color,
    from: Square,
    bv: Seq<Option<Piece>>,
    offsets: Seq<(int, int)>,
    limit: Option<int>,
    take: bool,
    k: int,
) -> (found: (int, int))
    requires
        0 <= k < rays(color, from, bv, offsets, limit, take).len(),
    ensures
        0 <= found.0 < offsets.len(),
        0 <= found.1 < ray(color, from, bv, offsets[found.0], limit, take, from, 0).len(),
        rays(color, from, bv, offsets, limit, take)[k] == ray(
            color,
            from,
            bv,
            offsets[found.0],
            limit,
            take,
            from,
            0,
        )[found.1],
    decreases offsets.len(),
{
    let before = rays(color, from, bv, offsets.drop_last(), limit, take);
    if k < before.len() {
        lemma_rays_split(color, from, bv, offsets.drop_last(), limit, take, k)
    } else {
        (offsets.len() - 1, k - before.len())
    }
}

/// Every move of the walk along one of several directions is a move of the
/// walks along all of them.
pub proof fn lemma_rays_join(
    color: Color,
    from: Square,
    bv: Seq<Option<Piece>>,
    offsets: Seq<(int, int)>,
    limit: Option<int>,
    take: bool,
    j: int,
    i: int,
) -> (k: int)
    requires
        0 <= j < offsets.len(),
        0 <= i < ray(color, from, bv, offsets[j], limit, take, from, 0).len(),
    ensures
        0 <= k < rays(color, from, bv, offsets, limit, take).len(),
        rays(color, from, bv, offsets, limit, take)[k] == ray(
            color,
            from,
            bv,
            offsets[j],
            limit,
            take,
            from,
            0,
        )[i],
    decreases offsets.len(),
{
    let before = rays(color, from, bv, offsets.drop_last(), limit, take);
    if j == offsets.len() - 1 {
        before.len() + i
    } else {
        lemma_rays_join(color, from, bv, offsets.drop_last(), limit, take, j, i)
    }
}

/// Model of an optional limit on the length of a walk.
pub open spec fn limit_view(max_distance: Option<u32>) -> Option<int> {
    match max_distance {
        Some(d) => Some(d as int),
        None => None,
    }
}

/// The square one step by `offset` away from `(x, y)`, if it lies on the
/// board.
pub fn shifted(x: usize, y: usize, offset: [i8; 2]) -> (r: Option<(usize, usize)>)
    requires
        x < 8,
        y < 8,
    ensures
        ({
            let to = (Square { x: x as int, y: y as int }).shift(offset[0] as int, offset[1] as int);
            &&& r is Some == to.on_board()
            &&& r is Some ==> r == Some((to.x as usize, to.y as usize))
        }),
{
    let nx: i64 = x as i64 + offset[0] as i64;
    let ny: i64 = y as i64 + offset[1] as i64;
    if 0 <= nx && nx <= 7 && 0 <= ny && ny <= 7 {
        Some((nx as usize, ny as usize))
    } else {
        None
    }
}

/// Walk from the specified from position over the specified board, with the
/// specified offsets, to a maximum distance or to encountering a piece.
///
/// Returns a list of possible moves including take moves if take is true.
pub fn walk_offsets(
    color: &Color,
    from: Cord,
    board: Board,
    offsets: Vec<[i8; 2]>,
    max_distance: Option<u32>,
    take: bool,
) -> (new_moves: Vec<Move>)
    requires
        sq(from).on_board(),
        forall|i: int| 0 <= i < offsets.len() ==> offsets[i][0] != 0 || offsets[i][1] != 0,
    ensures
        move_views(new_moves@) == rays(
            *color,
            sq(from),
            board_view(board),
            offset_views(offsets@),
            limit_view(max_distance),
            take,
        ),
        moves_start_on(move_views(new_moves@), sq(from)),
{
    let ghost bv = board_view(board);
    let ghost ds = offset_views(offsets@);
    let ghost lim = limit_view(max_distance);
    let mut new_moves: Vec<Move> = Vec::new();
    let mut i: usize = 0;
    while i < offsets.len()
        invariant
            i <= offsets.len(),
            sq(from).on_board(),
            bv == board_view(board),
            ds == offset_views(offsets@),
            lim == limit_view(max_distance),
            forall|i: int| 0 <= i < offsets.len() ==> offsets[i][0] != 0 || offsets[i][1] != 0,
            move_views(new_moves@) == rays(*color, sq(from), bv, ds.take(i as int), lim, take),
            moves_start_on(move_views(new_moves@), sq(from)),
        decreases offsets.len() - i,
    {
        let offset = offsets[i];
        let ghost d = (offset[0] as int, offset[1] as int);
        let ghost before = move_views(new_moves@);
        let ghost whole = ray(*color, sq(from), bv, d, lim, take, sq(from), 0);
        let mut x: usize = from[0];
        let mut y: usize = from[1];
        let mut distance: u32 = 0;
        loop
            invariant_except_break
                x < 8,
                y < 8,
                distance < 8,
                d.0 > 0 ==> x >= from[0] + distance,
                d.0 < 0 ==> x + distance <= from[0],
                d.1 > 0 ==> y >= from[1] + distance,
                d.1 < 0 ==> y + distance <= from[1],
                move_views(new_moves@) + ray(
                    *color,
                    sq(from),
                    bv,
                    d,
                    lim,
                    take,
                    Square { x: x as int, y: y as int },
                    distance as int,
                ) == before + whole,
            invariant
                sq(from).on_board(),
                bv == board_view(board),
                lim == limit_view(max_distance),
                d == (offset[0] as int, offset[1] as int),
                d.0 != 0 || d.1 != 0,
                moves_start_on(move_views(new_moves@), sq(from)),
            ensures
                move_views(new_moves@) == before + whole,
            decreases 8 - distance,
        {
            let ghost acc = move_views(new_moves@);
            let ghost cur = Square { x: x as int, y: y as int };
            let ghost rest = ray(*color, sq(from), bv, d, lim, take, cur, distance as int);
            match shifted(x, y, offset) {
                None => {
                    assert(acc + rest =~= acc);
                    break ;
                },
                Some((nx, ny)) => {
                    let to = cord(nx, ny);
                    let ghost mv = plain_move(sq(from), sq(to));
                    match get_square(&board, nx, ny) {
                        Some(p) => {
                            if p.color != *color && take {
                                new_moves.push(Move::simple_new(from, to));
                                assert(move_views(new_moves@) =~= acc.push(mv));
                                assert(acc + rest =~= acc.push(mv));
                            } else {
                                assert(acc + rest =~= acc);
                            }
                            break ;
                        },
                        None => {
                            new_moves.push(Move::simple_new(from, to));
                            assert(move_views(new_moves@) =~= acc.push(mv));
                        },
                    }
                    distance += 1;
                    x = nx;
                    y = ny;
                    let ghost next = ray(*color, sq(from), bv, d, lim, take, sq(to), distance as int);
                    if let Some(mx_d) = max_distance {
                        if distance == mx_d {
                            assert(acc + rest =~= acc.push(mv));
                            break ;
                        }
                    }
                    assert(acc + rest =~= acc.push(mv) + next);
                },
            }
        }
        proof {
            assert(ds.take(i + 1).drop_last() =~= ds.take(i as int));
            assert(ds.take(i + 1).last() == d);
        }
        i += 1;
    }
    assert(ds.take(i as int) =~= ds);
    new_moves
}

/// Check positions to go to with a certain offset, on the specified board
/// from the specified position.
///
/// Doesn't add non-take moves to the list of possible moves if
/// `has_to_take` is true.
pub fn with_offsets(
    color: &Color,
    from: Cord,
    board: Board,
    offsets: Vec<[i8; 2]>,
    has_to_take: bool,
) -> (new_moves: Vec<Move>)
    requires
        sq(from).on_board(),
    ensures
        move_views(new_moves@) == steps(
            *color,
            sq(from),
            board_view(board),
            offset_views(offsets@),
            has_to_take,
        ),
        moves_start_on(move_views(new_moves@), sq(from)),
{
    let ghost bv = board_view(board);
    let ghost ds = offset_views(offsets@);
    let mut new_moves: Vec<Move> = Vec::new();
    let mut i: usize = 0;
    while i < offsets.len()
        invariant
            i <= offsets.len(),
            sq(from).on_board(),
            bv == board_view(board),
            ds == offset_views(offsets@),
            move_views(new_moves@) == steps(*color, sq(from), bv, ds.take(i as int), has_to_take),
            moves_start_on(move_views(new_moves@), sq(from)),
        decreases offsets.len() - i,
    {
        let offset = offsets[i];
        let ghost acc = move_views(new_moves@);
        proof {
            assert(ds.take(i + 1).drop_last() =~= ds.take(i as int));
            assert(ds.take(i + 1).last() == (offset[0] as int, offset[1] as int));
        }
        match shifted(from[0], from[1], offset) {
            None => {
                assert(acc + Seq::<MoveView>::empty() =~= acc);
            },
            Some((nx, ny)) => {
                let to = cord(nx, ny);
                let emit = match get_square(&board, nx, ny) {
                    Some(p) => p.color != *color,
                    None => !has_to_take,
                };
                if emit {
                    new_moves.push(Move::simple_new(from, to));
                    assert(move_views(new_moves@) =~= acc + seq![plain_move(sq(from), sq(to))]);
                } else {
                    assert(acc + Seq::<MoveView>::empty() =~= acc);
                }
            },
        }
        i += 1;
    }
    assert(ds.take(i as int) =~= ds);
    new_moves
}

/// The square that the characters of a text name, such as `e4`; `None` for a
/// text that names no square.
pub fn square_from_chars(chars: &Vec<char>) -> (r: Option<Cord>)
    ensures
        r is Some == square_of_text(chars@) is Some,
        r is Some ==> sq(r->0) == square_of_text(chars@)->0,
        r is Some ==> sq(r->0).on_board(),
{
    if chars.len() != 2 {
        return None;
    }
    match (parse_file(chars[0]), parse_rank(chars[1])) {
        (Some(x), Some(y)) => Some(cord(x, y)),
        _ => None,
    }
}

/// The square that a text names, such as `e4`; `None` for a text that names
/// no square.
pub fn parse_square(text: &str) -> (r: Option<Cord>)
    ensures
        r is Some == square_of_text(text@) is Some,
        r is Some ==> sq(r->0) == square_of_text(text@)->0,
        r is Some ==> sq(r->0).on_board(),
{
    let chars = chars_of(text);
    square_from_chars(&chars)
}

/// Convert the name of a square to its coordinates.
///
/// a1 -> [0, 0]
/// e4 -> [4, 3]
pub fn string_square_to_square(string_square: String) -> (square: Cord)
    requires
        square_of_text(string_square@) is Some,
    ensures
        sq(square) == square_of_text(string_square@)->0,
        sq(square).on_board(),
{
    match parse_square(string_square.as_str()) {
        Some(c) => c,
        None => unreached(),
    }
}

} // verus!
