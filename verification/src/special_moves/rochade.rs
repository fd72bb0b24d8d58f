use crate::chess::{Chess, Move};
use crate::field::{on_board, same_coordinates, set_figure, sq};
use crate::figure::{Figure, FigureType, Team};
use crate::model::{
    between, castled, castling_at_home, castling_attempt, castling_valid, home_row,
    king_castled, move_of, rook_corner, GameView,
};
use crate::rules::{abs, empty_at};
use vstd::prelude::*;

verus! {

/// The back rank of `team`.
fn back_row(team: Team) -> (row: usize)
    ensures
        row == home_row(team),
{
    match team {
        Team::Black => 0,
        Team::White => 7,
    }
}

impl Chess {
    /// The selected square and the clicked one, if together they make the
    /// castling gesture: they hold a king and a rook of the side to move, in
    /// either order, neither of which has moved.
    pub fn tried_rochade(&self, clicked: (usize, usize)) -> (pair: Option<
        ((usize, usize), (usize, usize)),
    >)
        ensures
            pair is Some <==> castling_attempt(self@, sq(clicked)),
            pair is Some ==> self.selection.selected_field == Some(pair->Some_0.0)
                && pair->Some_0.1 == clicked,
    {
        if clicked.0 >= 8 || clicked.1 >= 8 {
            return None;
        }
        let Some(clicked_figure) = self.field(clicked).figure else {
            return None;
        };
        let Some(selected) = self.selection.selected_field else {
            return None;
        };
        if selected.0 >= 8 || selected.1 >= 8 {
            return None;
        }
        let Some(previous) = self.field(selected).figure else {
            return None;
        };
        if !clicked_figure.first_move || !previous.first_move {
            return None;
        }
        if clicked_figure.team != previous.team || previous.team != self.player {
            return None;
        }
        match (clicked_figure.figure, previous.figure) {
            (FigureType::King, FigureType::Rook) | (FigureType::Rook, FigureType::King) => Some(
                (selected, clicked),
            ),
            (_, _) => None,
        }
    }

    /// Whether castling with the pieces on the two squares can proceed, and
    /// if so whether it is the short one. It can if every square strictly
    /// between the two columns, on the row of the first square, is empty; it
    /// is the short one if the two stand three columns apart.
    pub fn is_rochade_valid(&self, figures: ((usize, usize), (usize, usize))) -> (short: Option<
        bool,
    >)
        requires
            on_board(sq(figures.0)),
            on_board(sq(figures.1)),
        ensures
            short == castling_valid(self.board(), sq(figures.0), sq(figures.1)),
            short == (if forall|col: int|
                between(figures.0.1 as int, figures.1.1 as int, col) ==> #[trigger] empty_at(
                    self.board(),
                    (figures.0.0 as int, col),
                ) {
                Some(abs(figures.0.1 - figures.1.1) == 3)
            } else {
                None
            }),
    {
        let (previous, clicked) = figures;
        let (first, last): (usize, usize) = if previous.1 < clicked.1 {
            (previous.1 + 1, clicked.1)
        } else {
            (clicked.1 + 1, previous.1)
        };
        let mut col: usize = first;
        while col < last
            invariant
                figures == (previous, clicked),
                previous.0 < 8,
                last < 8,
                first <= col,
                first == previous.1 + 1 && last == clicked.1 || first == clicked.1 + 1 && last
                    == previous.1,
                forall|c: int|
                    first <= c < col ==> #[trigger] empty_at(
                        self.board(),
                        (previous.0 as int, c),
                    ),
            decreases last - col,
        {
            if self.field((previous.0, col)).figure.is_some() {
                assert(between(previous.1 as int, clicked.1 as int, col as int) && !empty_at(
                    self.board(),
                    (previous.0 as int, col as int),
                ));
                return None;
            }
            col += 1;
        }
        let apart: usize = if previous.1 < clicked.1 {
            clicked.1 - previous.1
        } else {
            previous.1 - clicked.1
        };
        // true on short rochade
        Some(apart == 3)
    }

    /// Whether the two squares are where the castling move takes the pieces
    /// from: one is the king's home square of the side to move and holds a
    /// king, the other a corner of the same back rank and holds a rook. An
    /// unmoved king off its home square, on a board set up by hand, fails
    /// this, and the castling attempt then forfeits the turn.
    pub fn is_rochade_at_home(&self, figures: ((usize, usize), (usize, usize))) -> (at_home: bool)
        ensures
            at_home == castling_at_home(self.board(), self.player, sq(figures.0), sq(figures.1)),
    {
        let row: usize = back_row(self.player);
        let (previous, clicked) = figures;
        let rook: (usize, usize) = if previous.0 == row && previous.1 == 4 {
            clicked
        } else if clicked.0 == row && clicked.1 == 4 {
            previous
        } else {
            return false;
        };
        if rook.0 != row || (rook.1 != 0 && rook.1 != 7) {
            return false;
        }
        match (self.field((row, 4)).figure, self.field(rook).figure) {
            (Some(king), Some(piece)) => king.figure == FigureType::King && piece.figure
                == FigureType::Rook,
            _ => false,
        }
    }

    /// Castles: the king of the side to move goes `dir` columns from its home
    /// square, and the rook from the corner on that side goes to the square
    /// `rook_move` columns from the king's new square. Both are marked as
    /// moved, and the king's move is recorded as the latest move.
    pub fn rochade_swap(&mut self, dir: i32, rook_move: i32)
        requires
            0 <= 4 + dir < 8,
            0 <= 4 + dir + rook_move < 8,
            old(self).board().contains_key((home_row(old(self).player), 4)),
            king_castled(old(self).board(), old(self).player, dir as int).contains_key(
                rook_corner(old(self).player, dir as int),
            ),
        ensures
            final(self)@ == (GameView {
                board: castled(old(self).board(), old(self).player, dir as int, rook_move as int),
                latest_move: Some(
                    move_of(
                        (home_row(old(self).player), 4),
                        (home_row(old(self).player), 4 + dir),
                    ),
                ),
                ..old(self)@
            }),
            final(self).selection == old(self).selection,
            same_coordinates(old(self).fields, final(self).fields),
    {
        let row: usize = back_row(self.player);
        let king_col: usize = (4 + dir) as usize;
        let Some(king) = self.field((row, 4)).figure else {
            return ;
        };
        set_figure(&mut self.fields, (row, 4), None);
        set_figure(
            &mut self.fields,
            (row, king_col),
            Some(Figure { figure: king.figure, team: king.team, first_move: false }),
        );
        self.latest_move = Some(
            Move { start_row: row, start_col: 4, end_row: row, end_col: king_col },
        );
        assert(self.board() == king_castled(old(self).board(), old(self).player, dir as int));

        let rook_col: usize = if dir < 0 {
            0
        } else {
            7
        };
        let Some(rook) = self.field((row, rook_col)).figure else {
            return ;
        };
        set_figure(&mut self.fields, (row, rook_col), None);
        set_figure(
            &mut self.fields,
            (row, (4 + dir + rook_move) as usize),
            Some(Figure { figure: rook.figure, team: rook.team, first_move: false }),
        );
    }
}

} // verus!
