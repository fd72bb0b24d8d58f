use crate::figure::Figure;
use vstd::prelude::*;

verus! {

/// One square of the board: the piece standing on it, if any, and the
/// square's own coordinates as (row, column).
#[derive(Debug, Clone, Copy)]
pub struct Field {
    pub figure: Option<Figure>,
    pub idxs: (usize, usize),
}

impl Default for Field {
    fn default() -> (f: Field)
        ensures
            f.figure is None,
            f.idxs == (0usize, 0usize),
    {
        Field { figure: None, idxs: (0, 0) }
    }
}

/// The mathematical board: the occupied squares, each with its piece.
pub type Board = Map<(int, int), Figure>;

/// Whether (row, column) names one of the 64 squares.
pub open spec fn on_board(s: (int, int)) -> bool {
    0 <= s.0 < 8 && 0 <= s.1 < 8
}

/// An executable coordinate pair as a pair of integers.
pub open spec fn sq(p: (usize, usize)) -> (int, int) {
    (p.0 as int, p.1 as int)
}

/// The board that an 8x8 grid of squares stands for.
pub open spec fn board_of(fields: [[Field; 8]; 8]) -> Board {
    Map::new(
        |s: (int, int)| on_board(s) && fields[s.0][s.1].figure is Some,
        |s: (int, int)| fields[s.0][s.1].figure->Some_0,
    )
}

/// Whether every square of the grid carries its own coordinates.
pub open spec fn coordinates_ok(fields: [[Field; 8]; 8]) -> bool {
    forall|r: int, c: int|
        0 <= r < 8 && 0 <= c < 8 ==> (#[trigger] fields[r][c]).idxs == (r as usize, c as usize)
}

/// Whether two grids give every square the same coordinates.
pub open spec fn same_coordinates(a: [[Field; 8]; 8], b: [[Field; 8]; 8]) -> bool {
    forall|r: int, c: int|
        #![trigger a[r][c]]
        #![trigger b[r][c]]
        0 <= r < 8 && 0 <= c < 8 ==> a[r][c].idxs == b[r][c].idxs
}

/// The board with square `s` made to hold `figure`, or emptied.
pub open spec fn placed(b: Board, s: (int, int), figure: Option<Figure>) -> Board {
    match figure {
        Some(f) => b.insert(s, f),
        None => b.remove(s),
    }
}

/// Makes the square `pos` hold `figure`, or empties it.
pub(crate) fn set_figure(fields: &mut [[Field; 8]; 8], pos: (usize, usize), figure: Option<Figure>)
    requires
        on_board(sq(pos)),
    ensures
        board_of(*final(fields)) == placed(board_of(*old(fields)), sq(pos), figure),
        same_coordinates(*old(fields), *final(fields)),
{
    fields[pos.0][pos.1].figure = figure;
    proof {
        assert(board_of(*fields) =~= placed(board_of(*old(fields)), sq(pos), figure));
    }
}

} // verus!
