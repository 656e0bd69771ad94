//! Piece-square tables.
//!
//! One table per piece kind, indexed `[phase][rank][file]`. The phase index is
//! the ordinal of the game phase (start, middle, end). Values are seen from
//! White's side: rank 0 is White's back rank. A black piece looks its value up
//! on the mirrored rank.

use vstd::prelude::*;

verus! {

/// King bonuses: shelter early, the centre in the endgame.
pub const SCORE_KING: [[[i64; 8]; 8]; 3] = [
    [
        [20, 30, 10, 0, 0, 10, 30, 20],
        [10, 10, -10, -10, -10, -10, 10, 10],
        [-20, -30, -30, -30, -30, -30, -30, -20],
        [-30, -40, -40, -50, -50, -40, -40, -30],
        [-40, -50, -50, -60, -60, -50, -50, -40],
        [-40, -50, -50, -60, -60, -50, -50, -40],
        [-40, -50, -50, -60, -60, -50, -50, -40],
        [-40, -50, -50, -60, -60, -50, -50, -40],
    ],
    [
        [20, 30, 10, 0, 0, 10, 30, 20],
        [20, 20, 0, 0, 0, 0, 20, 20],
        [-10, -20, -20, -20, -20, -20, -20, -10],
        [-20, -30, -30, -40, -40, -30, -30, -20],
        [-30, -40, -40, -50, -50, -40, -40, -30],
        [-30, -40, -40, -50, -50, -40, -40, -30],
        [-30, -40, -40, -50, -50, -40, -40, -30],
        [-30, -40, -40, -50, -50, -40, -40, -30],
    ],
    [
        [-50, -30, -30, -30, -30, -30, -30, -50],
        [-30, -30, 0, 0, 0, 0, -30, -30],
        [-30, -10, 20, 30, 30, 20, -10, -30],
        [-30, -10, 30, 40, 40, 30, -10, -30],
        [-30, -10, 30, 40, 40, 30, -10, -30],
        [-30, -10, 20, 30, 30, 20, -10, -30],
        [-30, -20, -10, 0, 0, -10, -20, -30],
        [-50, -40, -30, -20, -20, -30, -40, -50],
    ],
];

/// Queen bonuses: a mild pull to the centre.
pub const SCORE_QUEEN: [[[i64; 8]; 8]; 3] = [
    [
        [-20, -10, -10, -5, -5, -10, -10, -20],
        [-10, 0, 5, 0, 0, 0, 0, -10],
        [-20, -5, -5, -5, -5, -5, -10, -20],
        [-10, -10, -5, -5, -5, -5, -10, -15],
        [-15, -10, -5, -5, -5, -5, -10, -15],
        [-20, -10, -5, -5, -5, -5, -10, -20],
        [-20, -10, -10, -10, -10, -10, -10, -20],
        [-30, -20, -20, -15, -15, -20, -20, -30],
    ],
    [
        [-20, -10, -10, -5, -5, -10, -10, -20],
        [-10, 0, 5, 0, 0, 0, 0, -10],
        [-10, 5, 5, 5, 5, 5, 0, -10],
        [0, 0, 5, 5, 5, 5, 0, -5],
        [-5, 0, 5, 5, 5, 5, 0, -5],
        [-10, 0, 5, 5, 5, 5, 0, -10],
        [-10, 0, 0, 0, 0, 0, 0, -10],
        [-20, -10, -10, -5, -5, -10, -10, -20],
    ],
    [
        [-20, -10, -10, -5, -5, -10, -10, -20],
        [-10, 0, 5, 0, 0, 0, 0, -10],
        [-10, 5, 5, 5, 5, 5, 0, -10],
        [0, 0, 5, 5, 5, 5, 0, -5],
        [-5, 0, 5, 5, 5, 5, 0, -5],
        [-10, 0, 5, 5, 5, 5, 0, -10],
        [-10, 0, 0, 0, 0, 0, 0, -10],
        [-20, -10, -10, -5, -5, -10, -10, -20],
    ],
];

/// Rook bonuses: the seventh rank and the central files.
pub const SCORE_ROOK: [[[i64; 8]; 8]; 3] = [
    [
        [0, 0, 0, 5, 5, 0, 0, 0],
        [-5, 0, 0, 0, 0, 0, 0, -5],
        [-5, 0, 0, 0, 0, 0, 0, -5],
        [-5, 0, 0, 0, 0, 0, 0, -5],
        [-5, 0, 0, 0, 0, 0, 0, -5],
        [-5, 0, 0, 0, 0, 0, 0, -5],
        [5, 10, 10, 10, 10, 10, 10, 5],
        [0, 0, 0, 0, 0, 0, 0, 0],
    ],
    [
        [0, 0, 0, 5, 5, 0, 0, 0],
        [-5, 0, 0, 0, 0, 0, 0, -5],
        [-5, 0, 0, 0, 0, 0, 0, -5],
        [-5, 0, 0, 0, 0, 0, 0, -5],
        [-5, 0, 0, 0, 0, 0, 0, -5],
        [-5, 0, 0, 0, 0, 0, 0, -5],
        [5, 10, 10, 10, 10, 10, 10, 5],
        [0, 0, 0, 0, 0, 0, 0, 0],
    ],
    [
        [0, 0, 0, 5, 5, 0, 0, 0],
        [-5, 0, 0, 0, 0, 0, 0, -5],
        [-5, 0, 0, 0, 0, 0, 0, -5],
        [-5, 0, 0, 0, 0, 0, 0, -5],
        [-5, 0, 0, 0, 0, 0, 0, -5],
        [-5, 0, 0, 0, 0, 0, 0, -5],
        [10, 15, 15, 15, 15, 15, 15, 10],
        [0, 0, 0, 0, 0, 0, 0, 0],
    ],
];

/// Bishop bonuses: long diagonals and the centre.
pub const SCORE_BISHOP: [[[i64; 8]; 8]; 3] = [
    [
        [-30, -20, -20, -20, -20, -20, -20, -30],
        [-10, 5, 0, 0, 0, 0, 5, -10],
        [-10, 10, 10, 10, 10, 10, 10, -10],
        [-10, 0, 10, 10, 10, 10, 0, -10],
        [-10, 5, 5, 10, 10, 5, 5, -10],
        [-10, 0, 5, 10, 10, 5, 0, -10],
        [-10, 0, 0, 0, 0, 0, 0, -10],
        [-20, -10, -10, -10, -10, -10, -10, -20],
    ],
    [
        [-20, -10, -10, -10, -10, -10, -10, -20],
        [-10, 5, 0, 0, 0, 0, 5, -10],
        [-10, 10, 10, 10, 10, 10, 10, -10],
        [-10, 0, 10, 10, 10, 10, 0, -10],
        [-10, 5, 5, 10, 10, 5, 5, -10],
        [-10, 0, 5, 10, 10, 5, 0, -10],
        [-10, 0, 0, 0, 0, 0, 0, -10],
        [-20, -10, -10, -10, -10, -10, -10, -20],
    ],
    [
        [-20, -10, -10, -10, -10, -10, -10, -20],
        [-10, 5, 0, 0, 0, 0, 5, -10],
        [-10, 10, 10, 10, 10, 10, 10, -10],
        [-10, 0, 10, 10, 10, 10, 0, -10],
        [-10, 5, 5, 10, 10, 5, 5, -10],
        [-10, 0, 5, 10, 10, 5, 0, -10],
        [-10, 0, 0, 0, 0, 0, 0, -10],
        [-20, -10, -10, -10, -10, -10, -10, -20],
    ],
];

/// Knight bonuses: the centre is good, the rim is not.
pub const SCORE_KNIGHT: [[[i64; 8]; 8]; 3] = [
    [
        [-60, -50, -40, -40, -40, -40, -50, -60],
        [-40, -20, 0, 5, 5, 0, -20, -40],
        [-30, 5, 10, 15, 15, 10, 5, -30],
        [-30, 0, 15, 20, 20, 15, 0, -30],
        [-30, 5, 15, 20, 20, 15, 5, -30],
        [-30, 0, 10, 15, 15, 10, 0, -30],
        [-40, -20, 0, 0, 0, 0, -20, -40],
        [-50, -40, -30, -30, -30, -30, -40, -50],
    ],
    [
        [-50, -40, -30, -30, -30, -30, -40, -50],
        [-40, -20, 0, 5, 5, 0, -20, -40],
        [-30, 5, 10, 15, 15, 10, 5, -30],
        [-30, 0, 15, 20, 20, 15, 0, -30],
        [-30, 5, 15, 20, 20, 15, 5, -30],
        [-30, 0, 10, 15, 15, 10, 0, -30],
        [-40, -20, 0, 0, 0, 0, -20, -40],
        [-50, -40, -30, -30, -30, -30, -40, -50],
    ],
    [
        [-50, -40, -30, -30, -30, -30, -40, -50],
        [-40, -20, 0, 5, 5, 0, -20, -40],
        [-30, 5, 10, 15, 15, 10, 5, -30],
        [-30, 0, 15, 20, 20, 15, 0, -30],
        [-30, 5, 15, 20, 20, 15, 5, -30],
        [-30, 0, 10, 15, 15, 10, 0, -30],
        [-40, -20, 0, 0, 0, 0, -20, -40],
        [-50, -40, -30, -30, -30, -30, -40, -50],
    ],
];

/// Pawn values; the material worth of a pawn is part of the table.
pub const SCORE_PAWN: [[[i64; 8]; 8]; 3] = [
    [
        [100, 100, 100, 100, 100, 100, 100, 100],
        [105, 110, 110, 80, 80, 110, 110, 105],
        [105, 95, 90, 110, 110, 90, 95, 105],
        [100, 100, 100, 130, 130, 100, 100, 100],
        [105, 105, 110, 125, 125, 110, 105, 105],
        [110, 110, 120, 130, 130, 120, 110, 110],
        [150, 150, 150, 150, 150, 150, 150, 150],
        [100, 100, 100, 100, 100, 100, 100, 100],
    ],
    [
        [100, 100, 100, 100, 100, 100, 100, 100],
        [105, 110, 110, 80, 80, 110, 110, 105],
        [105, 95, 90, 100, 100, 90, 95, 105],
        [100, 100, 100, 120, 120, 100, 100, 100],
        [105, 105, 110, 125, 125, 110, 105, 105],
        [110, 110, 120, 130, 130, 120, 110, 110],
        [150, 150, 150, 150, 150, 150, 150, 150],
        [100, 100, 100, 100, 100, 100, 100, 100],
    ],
    [
        [100, 100, 100, 100, 100, 100, 100, 100],
        [100, 100, 100, 100, 100, 100, 100, 100],
        [110, 110, 110, 110, 110, 110, 110, 110],
        [120, 120, 120, 120, 120, 120, 120, 120],
        [135, 135, 135, 135, 135, 135, 135, 135],
        [155, 155, 155, 155, 155, 155, 155, 155],
        [180, 180, 180, 180, 180, 180, 180, 180],
        [100, 100, 100, 100, 100, 100, 100, 100],
    ],
];

} // verus!
