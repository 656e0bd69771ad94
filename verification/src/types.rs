//! Coordinates and the board, with their mathematical models.

use vstd::prelude::*;
use crate::piece::Piece;

verus! {

/// A square as `[file, rank]`, each in `0..8`. File 0 is the a-file, rank 0 is
/// White's back rank.
pub type Cord = [usize; 2];

/// The board, indexed `[rank][file]`.
pub type Board = [[Option<Piece>; 8]; 8];

/// Model of a square: file `x` and rank `y`.
pub struct Square {
    pub x: int,
    pub y: int,
}

impl Square {
    /// The square lies on the board.
    pub open spec fn on_board(self) -> bool {
        0 <= self.x < 8 && 0 <= self.y < 8
    }

    /// Position of the square in the row-major model of the board.
    pub open spec fn index(self) -> int {
        self.y * 8 + self.x
    }

    /// The square `dx` files and `dy` ranks away.
    pub open spec fn shift(self, dx: int, dy: int) -> Square {
        Square { x: self.x + dx, y: self.y + dy }
    }
}

/// The square with file `x` and rank `y`.
pub open spec fn square(x: int, y: int) -> Square {
    Square { x, y }
}

/// Model of a coordinate pair.
pub open spec fn sq(c: Cord) -> Square {
    Square { x: c[0] as int, y: c[1] as int }
}

/// Model of the board: its 64 squares in row-major order, rank 0 first.
pub open spec fn board_view(b: Board) -> Seq<Option<Piece>> {
    Seq::new(64, |i: int| b[i / 8][i % 8])
}

/// What stands on square `s` of a board model.
pub open spec fn at(bv: Seq<Option<Piece>>, s: Square) -> Option<Piece> {
    bv[s.index()]
}

/// Two coordinate pairs are the same value exactly when their models agree.
pub proof fn lemma_cord_eq(a: Cord, b: Cord)
    ensures
        (a == b) <==> (sq(a) == sq(b)),
{
    if sq(a) == sq(b) {
        assert(a[0] == b[0] && a[1] == b[1]);
        assert(a =~= b);
    }
}

/// Builds a coordinate pair.
pub fn cord(x: usize, y: usize) -> (c: Cord)
    ensures
        sq(c) == square(x as int, y as int),
{
    [x, y]
}

/// Whether two coordinate pairs name the same square.
pub fn same_square(a: Cord, b: Cord) -> (r: bool)
    ensures
        r == (sq(a) == sq(b)),
        r == (a == b),
{
    proof {
        lemma_cord_eq(a, b);
    }
    a[0] == b[0] && a[1] == b[1]
}

/// Reads one square of the board.
pub fn get_square(board: &Board, x: usize, y: usize) -> (r: Option<Piece>)
    requires
        x < 8,
        y < 8,
    ensures
        r == at(board_view(*board), square(x as int, y as int)),
        r == board[y as int][x as int],
{
    board[y][x]
}

/// Writes one square of the board and leaves the others as they are.
pub fn set_square(board: &mut Board, x: usize, y: usize, p: Option<Piece>)
    requires
        x < 8,
        y < 8,
    ensures
        board_view(*final(board)) == board_view(*old(board)).update(y * 8 + x, p),
{
    board[y][x] = p;
    assert(board_view(*board) =~= board_view(*old(board)).update(y * 8 + x, p));
}

} // verus!
