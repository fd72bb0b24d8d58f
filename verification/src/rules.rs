//! The movement rules, stated over the mathematical board.

use crate::field::{on_board, Board};
use crate::figure::{Figure, FigureType, Team};
use vstd::prelude::*;

verus! {

/// No piece stands on `s`.
pub open spec fn empty_at(b: Board, s: (int, int)) -> bool {
    !b.contains_key(s)
}

/// A piece of `team` stands on `s`.
pub open spec fn holds_team(b: Board, team: Team, s: (int, int)) -> bool {
    b.contains_key(s) && b[s].team == team
}

/// A piece of `team` may land on `s`: the square is on the board and not
/// held by a piece of the same side.
pub open spec fn landable(b: Board, team: Team, s: (int, int)) -> bool {
    on_board(s) && !holds_team(b, team, s)
}

pub open spec fn abs(x: int) -> int {
    if x < 0 {
        -x
    } else {
        x
    }
}

/// The number of king steps between two squares.
pub open spec fn dist(a: (int, int), b: (int, int)) -> int {
    if abs(b.0 - a.0) >= abs(b.1 - a.1) {
        abs(b.0 - a.0)
    } else {
        abs(b.1 - a.1)
    }
}

/// `k` steps along one axis in the direction of the sign of `d`.
pub open spec fn scaled(d: int, k: int) -> int {
    if d > 0 {
        k
    } else if d < 0 {
        -k
    } else {
        0
    }
}

/// One of the eight directions a sliding piece can walk in.
pub open spec fn unit_dir(dir: (int, int)) -> bool {
    -1 <= dir.0 <= 1 && -1 <= dir.1 <= 1 && dir != (0int, 0int)
}

/// The square `k` steps from `from` in direction `dir`.
pub open spec fn ray_square(from: (int, int), dir: (int, int), k: int) -> (int, int) {
    (from.0 + scaled(dir.0, k), from.1 + scaled(dir.1, k))
}

/// Walking from `from` in direction `dir`, a piece of `team` can stop on the
/// `k`-th square: every square before it is empty and it is landable.
pub open spec fn ray_reaches(
    b: Board,
    team: Team,
    from: (int, int),
    dir: (int, int),
    k: int,
) -> bool {
    &&& 1 <= k
    &&& landable(b, team, ray_square(from, dir, k))
    &&& forall|j: int| 1 <= j < k ==> empty_at(b, #[trigger] ray_square(from, dir, j))
}

/// `to` is reached by sliding from `from` in direction `dir`.
pub open spec fn slide_dest(
    b: Board,
    team: Team,
    from: (int, int),
    dir: (int, int),
    to: (int, int),
) -> bool {
    to == ray_square(from, dir, dist(from, to)) && ray_reaches(b, team, from, dir, dist(from, to))
}

pub open spec fn rook_dest(b: Board, team: Team, from: (int, int), to: (int, int)) -> bool {
    ||| slide_dest(b, team, from, (0, 1), to)
    ||| slide_dest(b, team, from, (0, -1), to)
    ||| slide_dest(b, team, from, (1, 0), to)
    ||| slide_dest(b, team, from, (-1, 0), to)
}

pub open spec fn bishop_dest(b: Board, team: Team, from: (int, int), to: (int, int)) -> bool {
    ||| slide_dest(b, team, from, (1, 1), to)
    ||| slide_dest(b, team, from, (-1, -1), to)
    ||| slide_dest(b, team, from, (-1, 1), to)
    ||| slide_dest(b, team, from, (1, -1), to)
}

pub open spec fn queen_dest(b: Board, team: Team, from: (int, int), to: (int, int)) -> bool {
    bishop_dest(b, team, from, to) || rook_dest(b, team, from, to)
}

/// `to` is one knight's jump from `from`.
pub open spec fn knight_jump(from: (int, int), to: (int, int)) -> bool {
    ||| abs(to.0 - from.0) == 1 && abs(to.1 - from.1) == 2
    ||| abs(to.0 - from.0) == 2 && abs(to.1 - from.1) == 1
}

pub open spec fn knight_dest(b: Board, team: Team, from: (int, int), to: (int, int)) -> bool {
    knight_jump(from, to) && landable(b, team, to)
}

pub open spec fn king_dest(b: Board, team: Team, from: (int, int), to: (int, int)) -> bool {
    dist(from, to) == 1 && landable(b, team, to)
}

/// The row step of a pawn: White walks toward row 0, Black toward row 7.
pub open spec fn forward(team: Team) -> int {
    match team {
        Team::White => -1,
        Team::Black => 1,
    }
}

/// A pawn's single step onto an empty square.
pub open spec fn pawn_step(b: Board, team: Team, from: (int, int), to: (int, int)) -> bool {
    to == (from.0 + forward(team), from.1) && empty_at(b, to)
}

/// A pawn's double step: only on its first move, over an empty square onto
/// an empty square.
pub open spec fn pawn_double_step(
    b: Board,
    team: Team,
    first_move: bool,
    from: (int, int),
    to: (int, int),
) -> bool {
    &&& first_move
    &&& to == (from.0 + 2 * forward(team), from.1)
    &&& empty_at(b, to)
    &&& empty_at(b, (from.0 + forward(team), from.1))
}

/// A pawn's capture: one row forward, one column aside, onto an opposing piece.
pub open spec fn pawn_capture(b: Board, team: Team, from: (int, int), to: (int, int)) -> bool {
    &&& to.0 == from.0 + forward(team)
    &&& (to.1 == from.1 - 1 || to.1 == from.1 + 1)
    &&& holds_team(b, team.other(), to)
}

pub open spec fn pawn_dest(
    b: Board,
    team: Team,
    first_move: bool,
    from: (int, int),
    to: (int, int),
) -> bool {
    &&& on_board(to)
    &&& (pawn_step(b, team, from, to) || pawn_double_step(b, team, first_move, from, to)
        || pawn_capture(b, team, from, to))
}

/// The piece `fig`, standing on `from`, may move to `to` on board `b`. Whether
/// the move would leave the mover's own king attacked plays no part.
pub open spec fn destination(b: Board, fig: Figure, from: (int, int), to: (int, int)) -> bool {
    on_board(from) && match fig.figure {
        FigureType::Pawn => pawn_dest(b, fig.team, fig.first_move, from, to),
        FigureType::King => king_dest(b, fig.team, from, to),
        FigureType::Queen => queen_dest(b, fig.team, from, to),
        FigureType::Knight => knight_dest(b, fig.team, from, to),
        FigureType::Rook => rook_dest(b, fig.team, from, to),
        FigureType::Bishop => bishop_dest(b, fig.team, from, to),
    }
}

} // verus!
