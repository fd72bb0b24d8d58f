//! The game: the board, whose turn it is, the selection, and the click
//! state machine.

use crate::error::ChessError;
use crate::field::{
    board_of, coordinates_ok, on_board, same_coordinates, set_figure, sq, Board, Field,
};
use crate::figure::{Figure, FigureType, Team};
use crate::model::{
    after_move, click, attacked, attacks, before, has_king, in_check, is_king, king_at, relocated,
    GameView,
};
use crate::rules::destination;
use crate::selection::Selection;
use std::ops::Not;
use crate::special_moves::en_passant::EnPassantRegistry;
use vstd::prelude::*;

verus! {

/// A move: the square left and the square reached.
#[derive(Debug, Clone, Copy, PartialEq, Eq, Structural, Hash)]
pub struct Move {
    pub start_row: usize,
    pub start_col: usize,
    pub end_row: usize,
    pub end_col: usize,
}

/// A square by row and column.
#[derive(Debug, Clone, Copy, PartialEq, Eq, Structural, Hash)]
pub struct Position {
    pub row: usize,
    pub col: usize,
}

/// What input the game waits for: a click on a square, or the choice of the
/// piece that the pawn on the given square becomes.
#[derive(Debug, Clone, Copy, PartialEq, Eq, Structural, Hash)]
pub enum State {
    Select,
    Promote(Position),
}

/// A game of chess.
#[derive(Debug)]
pub struct Chess {
    pub fields: [[Field; 8]; 8],
    pub selection: Selection,
    pub player: Team,
    pub latest_move: Option<Move>,
    pub state: State,
    pub en_passants: EnPassantRegistry,
}

/// The kind of piece that starts the game on the given column of a back rank.
pub open spec fn back_rank(col: int) -> FigureType {
    if col == 0 || col == 7 {
        FigureType::Rook
    } else if col == 1 || col == 6 {
        FigureType::Knight
    } else if col == 2 || col == 5 {
        FigureType::Bishop
    } else if col == 3 {
        FigureType::Queen
    } else {
        FigureType::King
    }
}

/// The board at the start of a game: Black on rows 0 and 1, White on rows 6
/// and 7, pawns on the inner of the two rows, no piece moved yet.
pub open spec fn initial_board() -> Board {
    Map::new(
        |s: (int, int)| on_board(s) && (s.0 <= 1 || s.0 >= 6),
        |s: (int, int)|
            Figure {
                figure: if s.0 == 1 || s.0 == 6 {
                    FigureType::Pawn
                } else {
                    back_rank(s.1)
                },
                team: if s.0 <= 1 {
                    Team::Black
                } else {
                    Team::White
                },
                first_move: true,
            },
    )
}

/// Puts an unmoved piece of the given kind on the given column of each
/// side's back rank.
pub fn spawn_figure(fields: &mut [[Field; 8]; 8], col: usize, figure_type: FigureType)
    requires
        col < 8,
    ensures
        board_of(*final(fields)) == board_of(*old(fields)).insert(
            (0, col as int),
            Figure { figure: figure_type, team: Team::Black, first_move: true },
        ).insert(
            (7, col as int),
            Figure { figure: figure_type, team: Team::White, first_move: true },
        ),
        same_coordinates(*old(fields), *final(fields)),
{
    set_figure(
        fields,
        (0, col),
        Some(Figure { figure: figure_type, team: Team::Black, first_move: true }),
    );
    set_figure(
        fields,
        (7, col),
        Some(Figure { figure: figure_type, team: Team::White, first_move: true }),
    );
}

impl View for Chess {
    type V = GameView;

    open spec fn view(&self) -> GameView {
        GameView {
            board: self.board(),
            selected: match self.selection.selected_field {
                Some(p) => Some(sq(p)),
                None => None,
            },
            moves: self.selection.destinations(),
            player: self.player,
            latest_move: self.latest_move,
            state: self.state,
            en_passants: self.en_passants@,
        }
    }
}

impl Chess {
    /// The board as a mapping from the occupied squares to their pieces.
    pub open spec fn board(&self) -> Board {
        board_of(self.fields)
    }

    /// A game at its start: the initial position, White to move, nothing
    /// selected, no move made yet.
    pub fn new() -> (chess: Chess)
        ensures
            chess.board() == initial_board(),
            coordinates_ok(chess.fields),
            chess.selection.selected_field is None,
            chess.selection.moves@ == Seq::<(usize, usize)>::empty(),
            chess.player == Team::White,
            chess.latest_move is None,
            chess.state == State::Select,
            chess.en_passants@ == Map::<(int, int, Team), (int, int)>::empty(),
    {
        let mut fields = [[Field::default(); 8]; 8];
        let mut row: usize = 0;
        while row < 8
            invariant
                row <= 8,
                forall|r: int, c: int|
                    0 <= r < 8 && 0 <= c < 8 ==> (#[trigger] fields[r][c]).figure is None,
                forall|r: int, c: int|
                    0 <= r < row && 0 <= c < 8 ==> (#[trigger] fields[r][c]).idxs == (
                        r as usize,
                        c as usize,
                    ),
            decreases 8 - row,
        {
            let mut col: usize = 0;
            while col < 8
                invariant
                    row < 8,
                    col <= 8,
                    forall|r: int, c: int|
                        0 <= r < 8 && 0 <= c < 8 ==> (#[trigger] fields[r][c]).figure is None,
                    forall|r: int, c: int|
                        0 <= r < row && 0 <= c < 8 ==> (#[trigger] fields[r][c]).idxs == (
                            r as usize,
                            c as usize,
                        ),
                    forall|c: int|
                        0 <= c < col ==> (#[trigger] fields[row as int][c]).idxs == (
                            row,
                            c as usize,
                        ),
                decreases 8 - col,
            {
                fields[row][col].idxs = (row, col);
                col += 1;
            }
            row += 1;
        }
        assert(coordinates_ok(fields));
        assert(board_of(fields) =~= Map::<(int, int), Figure>::empty());

        spawn_figure(&mut fields, 0, FigureType::Rook);
        spawn_figure(&mut fields, 7, FigureType::Rook);

        spawn_figure(&mut fields, 1, FigureType::Knight);
        spawn_figure(&mut fields, 6, FigureType::Knight);

        spawn_figure(&mut fields, 2, FigureType::Bishop);
        spawn_figure(&mut fields, 5, FigureType::Bishop);

        spawn_figure(&mut fields, 3, FigureType::Queen);
        spawn_figure(&mut fields, 4, FigureType::King);

        let mut col: usize = 0;
        while col < 8
            invariant
                col <= 8,
                coordinates_ok(fields),
                forall|s: (int, int)| #[trigger]
                    board_of(fields).contains_key(s) <==> on_board(s) && (s.0 == 0 || s.0 == 7 || ((
                    s.0 == 1 || s.0 == 6) && s.1 < col)),
                forall|s: (int, int)| #[trigger]
                    board_of(fields).contains_key(s) ==> board_of(fields)[s] == initial_board()[s],
            decreases 8 - col,
        {
            set_figure(
                &mut fields,
                (1, col),
                Some(Figure { figure: FigureType::Pawn, team: Team::Black, first_move: true }),
            );
            set_figure(
                &mut fields,
                (6, col),
                Some(Figure { figure: FigureType::Pawn, team: Team::White, first_move: true }),
            );
            col += 1;
        }
        assert(board_of(fields) =~= initial_board());

        Chess {
            fields,
            selection: Selection::default(),
            player: Team::White,
            latest_move: None,
            state: State::Select,
            en_passants: EnPassantRegistry::new(),
        }
    }
}

/// Whether `moves` holds `target`.
pub(crate) fn holds(moves: &Vec<(usize, usize)>, target: (usize, usize)) -> (found: bool)
    ensures
        found == moves@.contains(target),
{
    let mut i: usize = 0;
    while i < moves.len()
        invariant
            i <= moves.len(),
            forall|j: int| 0 <= j < i ==> moves@[j] != target,
        decreases moves.len() - i,
    {
        if moves[i].0 == target.0 && moves[i].1 == target.1 {
            return true;
        }
        i += 1;
    }
    false
}

impl Chess {
    /// The square at `pos`.
    pub fn field(&self, pos: (usize, usize)) -> (field: &Field)
        requires
            on_board(sq(pos)),
        ensures
            *field == self.fields[pos.0 as int][pos.1 as int],
    {
        &self.fields[pos.0][pos.1]
    }

    /// The square at `pos`, to be changed in place.
    pub fn field_mut(&mut self, pos: (usize, usize)) -> (field: &mut Field)
        requires
            on_board(sq(pos)),
        ensures
            *field == old(self).fields[pos.0 as int][pos.1 as int],
            final(self).fields[pos.0 as int][pos.1 as int] == *final(field),
            forall|r: int, c: int|
                0 <= r < 8 && 0 <= c < 8 && (r, c) != sq(pos)
                    ==> #[trigger] final(self).fields[r][c] == old(self).fields[r][c],
            final(self).selection == old(self).selection,
            final(self).player == old(self).player,
            final(self).latest_move == old(self).latest_move,
            final(self).state == old(self).state,
            final(self).en_passants == old(self).en_passants,
    {
        &mut self.fields[pos.0][pos.1]
    }

    /// Marks the square `field_idx` as selected. The cached destinations are
    /// left as they are.
    pub fn select_field(&mut self, field_idx: (usize, usize))
        ensures
            final(self).selection.selected_field == Some(field_idx),
            final(self).selection.moves == old(self).selection.moves,
            final(self).fields == old(self).fields,
            final(self).player == old(self).player,
            final(self).latest_move == old(self).latest_move,
            final(self).state == old(self).state,
            final(self).en_passants == old(self).en_passants,
    {
        self.selection.selected_field = Some(field_idx);
    }

    /// Moves what stands on `from` to `to` and records the move. The piece is
    /// marked as moved and replaces what stood on `to`; a pawn captured in
    /// passing is taken off; the chances to capture in passing lapse, and a
    /// pawn's double step registers new ones. Whose turn it is and what is
    /// selected do not change.
    pub fn move_figure(&mut self, from: (usize, usize), to: (usize, usize))
        requires
            on_board(sq(from)),
            on_board(sq(to)),
        ensures
            final(self)@ == after_move(old(self)@, sq(from), sq(to)),
            final(self).selection == old(self).selection,
            same_coordinates(old(self).fields, final(self).fields),
    {
        self.latest_move = Some(
            Move { start_row: from.0, start_col: from.1, end_row: to.0, end_col: to.1 },
        );
        let figure: Option<Figure> = match self.fields[from.0][from.1].figure {
            Some(f) => Some(Figure { figure: f.figure, team: f.team, first_move: false }),
            None => None,
        };
        set_figure(&mut self.fields, to, figure);
        set_figure(&mut self.fields, from, None);
        assert(self.board() == relocated(old(self).board(), sq(from), sq(to)));
        if let Some(f) = figure {
            if f.figure == FigureType::Pawn {
                self.remove_if_en_passant_pawn(f.team, from, to);
                self.invalidate_en_passants();
                let double_step: bool = to.1 == from.1 && match f.team {
                    Team::White => from.0 >= 2 && to.0 == from.0 - 2,
                    Team::Black => to.0 == from.0 + 2,
                };
                if double_step {
                    if to.1 >= 1 {
                        self.add_to_en_passant_if_checked(f.team, (to.0, to.1 - 1), to);
                    }
                    if to.1 + 1 < 8 {
                        self.add_to_en_passant_if_checked(f.team, (to.0, to.1 + 1), to);
                    }
                }
                proof {
                    assert(self@.en_passants =~= after_move(
                        old(self)@,
                        sq(from),
                        sq(to),
                    ).en_passants);
                }
                return ;
            }
        }
        self.invalidate_en_passants();
    }

    /// The destinations cached for the selected square.
    pub fn legal_destinations(&self) -> (moves: &Vec<(usize, usize)>)
        ensures
            moves == self.selection.moves,
    {
        &self.selection.moves
    }

    /// The move made last. To ask before any move was made is an error.
    pub fn latest_move(&self) -> (mv: Result<Move, ChessError>)
        ensures
            mv == (match self.latest_move {
                Some(m) => Ok::<Move, ChessError>(m),
                None => Err(ChessError::NoMoveAvailable),
            }),
    {
        match self.latest_move {
            Some(m) => Ok(m),
            None => Err(ChessError::NoMoveAvailable),
        }
    }

    /// Handles a click on the square `clicked` while the game waits for one.
    /// A click off the board, or while a promotion choice is awaited, changes
    /// nothing. Otherwise, in this order: a click on the selected square
    /// drops the selection; a castling gesture is carried out, or forfeits
    /// the turn where castling cannot proceed (a piece stands between the
    /// two, the side to move is in check, or, on a board set up by hand, the
    /// king is off its home square or the rook out of its corner); a click
    /// on one of the cached destinations moves the selected piece, after
    /// which the turn passes or, where a pawn has reached the last row for
    /// its side, a promotion choice is awaited; any other click selects the
    /// piece of the side to move that stands there, with its destinations
    /// worked out afresh, or leaves nothing selected.
    pub fn select_or_move(&mut self, clicked: (usize, usize))
        ensures
            final(self)@ == click(old(self)@, sq(clicked)),
            same_coordinates(old(self).fields, final(self).fields),
            final(self).selection.moves@.no_duplicates()
                || final(self).selection.moves@ == old(self).selection.moves@,
    {
        if clicked.0 >= 8 || clicked.1 >= 8 {
            return ;
        }
        match self.state {
            State::Promote(_) => {
                return ;
            },
            State::Select => {},
        }
        // unselect field if same field was clicked
        if let Some(selected) = self.selection.selected_field {
            if selected.0 == clicked.0 && selected.1 == clicked.1 {
                self.selection.unselect_field();
                return ;
            }
        }
        if let Some(figures) = self.tried_rochade(clicked) {
            match (self.is_rochade_valid(figures), self.check_check(self.player)) {
                (Some(short), None) => {
                    if self.is_rochade_at_home(figures) {
                        let (dir, rook_move): (i32, i32) = if short {
                            (2, -1)
                        } else {
                            (-2, 1)
                        };
                        self.rochade_swap(dir, rook_move);
                    }
                },
                _ => {},
            }
            self.invalidate_en_passants();
            self.player = self.player.not();
            self.selection.unselect_field();
            return ;
        }
        // check if a valid move was selected

        if let Some(selected) = self.selection.selected_field {
            if selected.0 < 8 && selected.1 < 8 && holds(&self.selection.moves, clicked) {
                self.move_figure(selected, clicked);
                let promotes: bool = match self.field(clicked).figure {
                    Some(figure) => figure.figure == FigureType::Pawn && match figure.team {
                        Team::White => clicked.0 == 0,
                        Team::Black => clicked.0 == 7,
                    },
                    None => false,
                };
                self.selection.unselect_field();
                if promotes {
                    self.state = State::Promote(Position { row: clicked.0, col: clicked.1 });
                } else {
                    self.player = self.player.not();
                }
                return ;
            }
        }
        self.selection.unselect_field();

        let field: Field = *self.field(clicked);
        if let Some(figure) = field.figure {
            // only select figures of the current player
            if figure.team != self.player {
                return ;
            }
            self.selection.moves = figure.valid_moves(clicked, &self.fields);
            self.select_field(clicked);
            proof {
                let fresh = Set::new(
                    |to: (int, int)| destination(self.board(), figure, sq(clicked), to),
                );
                assert forall|to: (int, int)| fresh.contains(to) implies #[trigger]
                    self.selection.destinations().contains(to) by {
                    let m = (to.0 as usize, to.1 as usize);
                    assert(sq(m) == to);
                    assert(self.selection.moves@.contains(m));
                }
                assert(self.selection.destinations() =~= fresh);
            }
        }
    }

    /// The square of the king of `team`: the first one met when the board is
    /// read row by row.
    fn find_king(&self, team: Team) -> (king: Option<(usize, usize)>)
        ensures
            match king {
                Some(k) => king_at(self.board(), team, sq(k)),
                None => !has_king(self.board(), team),
            },
    {
        let mut row: usize = 0;
        while row < 8
            invariant
                row <= 8,
                forall|a: (int, int)|
                    before(a, (row as int, 0int)) ==> !#[trigger] is_king(self.board(), team, a),
            decreases 8 - row,
        {
            let mut col: usize = 0;
            while col < 8
                invariant
                    row < 8,
                    col <= 8,
                    forall|a: (int, int)|
                        before(a, (row as int, col as int)) ==> !#[trigger] is_king(
                            self.board(),
                            team,
                            a,
                        ),
                decreases 8 - col,
            {
                if let Some(figure) = self.fields[row][col].figure {
                    if figure.team == team && figure.figure == FigureType::King {
                        return Some((row, col));
                    }
                }
                col += 1;
            }
            row += 1;
        }
        None
    }

    /// Whether some piece that opposes `team` may move to `target`.
    fn is_attacked(&self, team: Team, target: (usize, usize)) -> (hit: bool)
        ensures
            hit == attacked(self.board(), team, sq(target)),
    {
        let mut row: usize = 0;
        while row < 8
            invariant
                row <= 8,
                forall|s: (int, int)|
                    before(s, (row as int, 0int)) ==> !#[trigger] attacks(
                        self.board(),
                        team,
                        s,
                        sq(target),
                    ),
            decreases 8 - row,
        {
            let mut col: usize = 0;
            while col < 8
                invariant
                    row < 8,
                    col <= 8,
                    forall|s: (int, int)|
                        before(s, (row as int, col as int)) ==> !#[trigger] attacks(
                            self.board(),
                            team,
                            s,
                            sq(target),
                        ),
                decreases 8 - col,
            {
                if let Some(figure) = self.fields[row][col].figure {
                    if figure.team != team {
                        let moves = figure.valid_moves((row, col), &self.fields);
                        if holds(&moves, target) {
                            assert(attacks(
                                self.board(),
                                team,
                                (row as int, col as int),
                                sq(target),
                            ));
                            return true;
                        }
                    }
                }
                col += 1;
            }
            row += 1;
        }
        false
    }

    /// Whether the king of `team` stands on a square that an opposing piece
    /// may move to. A side without a king is an error, not a side that is not
    /// in check.
    pub fn is_in_check(&self, team: Team) -> (answer: Result<bool, ChessError>)
        ensures
            match answer {
                Ok(check) => has_king(self.board(), team) && check == in_check(self.board(), team),
                Err(e) => !has_king(self.board(), team) && e == ChessError::KingAbsent,
            },
    {
        match self.find_king(team) {
            Some(king) => Ok(self.is_attacked(team, king)),
            None => Err(ChessError::KingAbsent),
        }
    }

    /// A marker that is present exactly if the king of `team` is attacked. It
    /// is absent both when the king is safe and when the side has no king.
    pub fn check_check(&self, team: Team) -> (marker: Option<()>)
        ensures
            marker is Some <==> in_check(self.board(), team),
    {
        match self.is_in_check(team) {
            Ok(true) => Some(()),
            _ => None,
        }
    }
}

} // verus!
