//! The game as a mathematical state, and the effect of each event on it.

use crate::chess::{Move, Position, State};
use crate::field::{on_board, placed, Board};
use crate::figure::{Figure, FigureType, Team};
use crate::rules::{abs, destination, empty_at, forward};
use vstd::prelude::*;

verus! {

/// The state of a game: the board, the selected square with the destinations
/// cached for it, the side to move, the latest move, the input awaited, and
/// the chances to capture in passing.
pub struct GameView {
    pub board: Board,
    pub selected: Option<(int, int)>,
    pub moves: Set<(int, int)>,
    pub player: Team,
    pub latest_move: Option<Move>,
    pub state: State,
    pub en_passants: Map<(int, int, Team), (int, int)>,
}

/// The record of a move from `from` to `to`.
pub open spec fn move_of(from: (int, int), to: (int, int)) -> Move {
    Move {
        start_row: from.0 as usize,
        start_col: from.1 as usize,
        end_row: to.0 as usize,
        end_col: to.1 as usize,
    }
}

// ---------------------------------------------------------------- check

/// A piece that opposes `team` stands on `s` and may move to `target`.
pub open spec fn attacks(b: Board, team: Team, s: (int, int), target: (int, int)) -> bool {
    b.contains_key(s) && b[s].team != team && destination(b, b[s], s, target)
}

/// Some piece that opposes `team` may move to `target`.
pub open spec fn attacked(b: Board, team: Team, target: (int, int)) -> bool {
    exists|s: (int, int)| attacks(b, team, s, target)
}

/// A king of `team` stands on `s`.
pub open spec fn is_king(b: Board, team: Team, s: (int, int)) -> bool {
    on_board(s) && b.contains_key(s) && b[s].team == team && b[s].figure == FigureType::King
}

/// `a` comes before `s` when the board is read row by row.
pub open spec fn before(a: (int, int), s: (int, int)) -> bool {
    a.0 < s.0 || (a.0 == s.0 && a.1 < s.1)
}

/// `s` holds the king of `team`: the first one met when the board is read
/// row by row, should there be several.
pub open spec fn king_at(b: Board, team: Team, s: (int, int)) -> bool {
    is_king(b, team, s) && forall|a: (int, int)| before(a, s) ==> !#[trigger] is_king(b, team, a)
}

/// `team` has a king on the board.
pub open spec fn has_king(b: Board, team: Team) -> bool {
    exists|s: (int, int)| is_king(b, team, s)
}

/// The king of `team` stands on a square that an opposing piece may move to.
pub open spec fn in_check(b: Board, team: Team) -> bool {
    exists|s: (int, int)| king_at(b, team, s) && attacked(b, team, s)
}

// ----------------------------------------------------------------- moves

/// A piece after it has been moved.
pub open spec fn moved_piece(f: Figure) -> Figure {
    Figure { figure: f.figure, team: f.team, first_move: false }
}

/// The board after what stands on `from` has gone to `to`: the piece, marked
/// as moved, replaces what stood on `to`, and `from` is left empty.
pub open spec fn relocated(b: Board, from: (int, int), to: (int, int)) -> Board {
    placed(
        b,
        to,
        if b.contains_key(from) {
            Some(moved_piece(b[from]))
        } else {
            None
        },
    ).remove(from)
}

/// The square that a pawn of `team` arriving on `to` has just passed over,
/// seen from the other side: the one behind `to`.
pub open spec fn behind(team: Team, to: (int, int)) -> (int, int) {
    (to.0 - forward(team), to.1)
}

/// The square of the pawn that a piece of `team` going from `from` to `to`
/// captures in passing, if the registry holds such a chance for it.
pub open spec fn passing_capture(
    chances: Map<(int, int, Team), (int, int)>,
    team: Team,
    from: (int, int),
    to: (int, int),
) -> Option<(int, int)> {
    let key = (from.0, from.1, team);
    if chances.contains_key(key) && chances[key] == behind(team, to) && on_board(chances[key]) {
        Some(chances[key])
    } else {
        None
    }
}

/// The board without the pawn captured in passing, if there is one.
pub open spec fn without_passed(
    b: Board,
    chances: Map<(int, int, Team), (int, int)>,
    team: Team,
    from: (int, int),
    to: (int, int),
) -> Board {
    match passing_capture(chances, team, from, to) {
        Some(pawn) => b.remove(pawn),
        None => b,
    }
}

/// A pawn that opposes `mover` stands on `s`.
pub open spec fn opposing_pawn(b: Board, mover: Team, s: (int, int)) -> bool {
    on_board(s) && b.contains_key(s) && b[s].team != mover && b[s].figure == FigureType::Pawn
}

/// The registry with the chance added that the pawn on `s`, if it opposes
/// `mover`, has to capture the pawn on `pawn` in passing.
pub open spec fn with_chance(
    chances: Map<(int, int, Team), (int, int)>,
    b: Board,
    mover: Team,
    s: (int, int),
    pawn: (int, int),
) -> Map<(int, int, Team), (int, int)> {
    if opposing_pawn(b, mover, s) {
        chances.insert((s.0, s.1, mover.other()), pawn)
    } else {
        chances
    }
}

/// The chances that arise when a pawn of `mover` has advanced two squares to
/// `to`: one for each opposing pawn beside it on the same row.
pub open spec fn chances_after(b: Board, mover: Team, to: (int, int)) -> Map<
    (int, int, Team),
    (int, int),
> {
    with_chance(
        with_chance(Map::empty(), b, mover, (to.0, to.1 - 1), to),
        b,
        mover,
        (to.0, to.1 + 1),
        to,
    )
}

/// The piece on `from` is a pawn and `to` lies two squares ahead of it.
pub open spec fn is_double_step(b: Board, from: (int, int), to: (int, int)) -> bool {
    &&& b.contains_key(from)
    &&& b[from].figure == FigureType::Pawn
    &&& to == (from.0 + 2 * forward(b[from].team), from.1)
}

/// The board after a move from `from` to `to`, a capture in passing included.
pub open spec fn board_after_move(v: GameView, from: (int, int), to: (int, int)) -> Board {
    if v.board.contains_key(from) && v.board[from].figure == FigureType::Pawn {
        without_passed(relocated(v.board, from, to), v.en_passants, v.board[from].team, from, to)
    } else {
        relocated(v.board, from, to)
    }
}

/// The game after what stands on `from` has been moved to `to`: the piece is
/// relocated, a pawn captured in passing is taken off, the move is recorded,
/// the old chances lapse and a pawn's double step registers new ones.
pub open spec fn after_move(v: GameView, from: (int, int), to: (int, int)) -> GameView {
    let board = board_after_move(v, from, to);
    GameView {
        board,
        latest_move: Some(move_of(from, to)),
        en_passants: if is_double_step(v.board, from, to) {
            chances_after(board, v.board[from].team, to)
        } else {
            Map::empty()
        },
        ..v
    }
}

// -------------------------------------------------------------- castling

/// The back rank of `team`.
pub open spec fn home_row(team: Team) -> int {
    match team {
        Team::White => 7,
        Team::Black => 0,
    }
}

/// The squares `a` and `c` hold a king and a rook of `player`, in either
/// order, neither of which has moved.
pub open spec fn castling_pair(b: Board, player: Team, a: (int, int), c: (int, int)) -> bool {
    &&& on_board(a) && on_board(c)
    &&& b.contains_key(a) && b.contains_key(c)
    &&& b[a].first_move && b[c].first_move
    &&& b[a].team == player && b[c].team == player
    &&& (b[a].figure == FigureType::King && b[c].figure == FigureType::Rook) || (b[a].figure
        == FigureType::Rook && b[c].figure == FigureType::King)
}

/// `col` lies strictly between the columns `x` and `y`.
pub open spec fn between(x: int, y: int, col: int) -> bool {
    (x < col && col < y) || (y < col && col < x)
}

/// Every square strictly between the columns of `a` and `c`, on the row of
/// `a`, is empty.
pub open spec fn castling_path_clear(b: Board, a: (int, int), c: (int, int)) -> bool {
    forall|col: int| between(a.1, c.1, col) ==> #[trigger] empty_at(b, (a.0, col))
}

/// Whether castling with the pieces on `a` and `c` can proceed, and if so
/// whether it is the short one. It can if every square between the two is
/// empty; it is the short one if the two stand three columns apart.
pub open spec fn castling_valid(b: Board, a: (int, int), c: (int, int)) -> Option<bool> {
    if castling_path_clear(b, a, c) {
        Some(abs(a.1 - c.1) == 3)
    } else {
        None
    }
}

/// One of `a` and `c` is the king's home square of `player` and holds a
/// king, the other is a corner of the same back rank and holds a rook. This
/// is where the castling move takes the two from. An unmoved king stands
/// there in every game played from the initial position; on a board set up
/// otherwise, a castling attempt with a king off its home square forfeits
/// the turn and moves nothing.
pub open spec fn castling_at_home(b: Board, player: Team, a: (int, int), c: (int, int)) -> bool {
    let king = (home_row(player), 4int);
    let rook = if a == king {
        c
    } else {
        a
    };
    &&& a == king || c == king
    &&& rook.0 == home_row(player) && (rook.1 == 0 || rook.1 == 7)
    &&& b.contains_key(king) && b[king].figure == FigureType::King
    &&& b.contains_key(rook) && b[rook].figure == FigureType::Rook
}

/// The corner from which the rook comes when the king goes `dir` columns.
pub open spec fn rook_corner(player: Team, dir: int) -> (int, int) {
    (home_row(player), if dir < 0 {
        0int
    } else {
        7int
    })
}

/// The board after the king of `player` has gone `dir` columns from its home
/// square; it is marked as moved.
pub open spec fn king_castled(b: Board, player: Team, dir: int) -> Board {
    let from = (home_row(player), 4int);
    b.remove(from).insert((home_row(player), 4 + dir), moved_piece(b[from]))
}

/// The board after the king of `player` has gone `dir` columns from its home
/// square and the rook from the corner on that side has gone to the square
/// `rook_move` columns from the king's new square; both are marked as moved.
pub open spec fn castled(b: Board, player: Team, dir: int, rook_move: int) -> Board {
    let b1 = king_castled(b, player, dir);
    let from = rook_corner(player, dir);
    b1.remove(from).insert((home_row(player), 4 + dir + rook_move), moved_piece(b1[from]))
}

/// How far the king goes when castling: two columns toward the rook.
pub open spec fn king_leg(short: bool) -> int {
    if short {
        2
    } else {
        -2
    }
}

/// Where the rook lands when castling, counted from the king's new square:
/// on the square the king has passed over.
pub open spec fn rook_leg(short: bool) -> int {
    if short {
        -1
    } else {
        1
    }
}

// ------------------------------------------------------------- promotion

/// The last row for a pawn of `team`.
pub open spec fn last_row(team: Team) -> int {
    match team {
        Team::White => 0,
        Team::Black => 7,
    }
}

/// A pawn stands on `c`, and `c` lies on the last row for a pawn of its
/// side.
pub open spec fn promotes(b: Board, c: (int, int)) -> bool {
    &&& b.contains_key(c)
    &&& b[c].figure == FigureType::Pawn
    &&& c.0 == last_row(b[c].team)
}

/// The kinds a pawn can become.
pub open spec fn promotable(kind: FigureType) -> bool {
    kind == FigureType::Queen || kind == FigureType::Rook || kind == FigureType::Bishop || kind
        == FigureType::Knight
}

/// The game waits for the choice of the piece that the pawn on `s` becomes.
pub open spec fn promotion_pending(v: GameView, s: (int, int)) -> bool {
    on_board(s) && v.state == State::Promote(Position { row: s.0 as usize, col: s.1 as usize })
}

/// The game after the pawn on `s` has become a piece of the given kind: the
/// new piece is of the side to move and counts as moved, the turn passes,
/// and the game waits for a click again.
pub open spec fn promoted(v: GameView, s: (int, int), kind: FigureType) -> GameView {
    GameView {
        board: v.board.insert(s, Figure { figure: kind, team: v.player, first_move: false }),
        player: v.player.other(),
        state: State::Select,
        ..v
    }
}

// ---------------------------------------------------------------- clicks

/// The game with the selection dropped.
pub open spec fn unselected(v: GameView) -> GameView {
    GameView { selected: None, moves: Set::empty(), ..v }
}

/// The click on `c` completes the castling gesture: a king and a rook of the
/// side to move, both unmoved, one selected and the other clicked.
pub open spec fn castling_attempt(v: GameView, c: (int, int)) -> bool {
    v.selected is Some && castling_pair(v.board, v.player, v.selected->Some_0, c)
}

/// The game after a castling attempt. The turn passes and the selection is
/// dropped in any case; the pieces move only if the squares between them are
/// empty, the side to move is not in check, and king and rook stand on their
/// home squares.
pub open spec fn after_castling_attempt(v: GameView, c: (int, int)) -> GameView {
    let a = v.selected->Some_0;
    let turned = GameView {
        player: v.player.other(),
        en_passants: Map::empty(),
        ..unselected(v)
    };
    match castling_valid(v.board, a, c) {
        Some(short) => if in_check(v.board, v.player) || !castling_at_home(
            v.board,
            v.player,
            a,
            c,
        ) {
            turned
        } else {
            GameView {
                board: castled(v.board, v.player, king_leg(short), rook_leg(short)),
                latest_move: Some(
                    move_of((home_row(v.player), 4), (home_row(v.player), 4 + king_leg(short))),
                ),
                ..turned
            }
        },
        None => turned,
    }
}

/// The click on `c` chooses one of the destinations cached for the selected
/// square.
pub open spec fn move_chosen(v: GameView, c: (int, int)) -> bool {
    v.selected is Some && on_board(v.selected->Some_0) && v.moves.contains(c)
}

/// The game after the selected piece has been moved to `c`. Where a pawn has
/// reached the last row for its side, the game waits for the choice of a
/// piece and the turn does not pass yet; otherwise the turn passes.
pub open spec fn after_chosen_move(v: GameView, c: (int, int)) -> GameView {
    let m = unselected(after_move(v, v.selected->Some_0, c));
    if promotes(m.board, c) {
        GameView { state: State::Promote(Position { row: c.0 as usize, col: c.1 as usize }), ..m }
    } else {
        GameView { player: v.player.other(), ..m }
    }
}

/// The game after a click on `c` that neither castles nor moves: a piece of
/// the side to move is selected, with its destinations worked out afresh;
/// any other click leaves nothing selected.
pub open spec fn after_select(v: GameView, c: (int, int)) -> GameView {
    if v.board.contains_key(c) && v.board[c].team == v.player {
        GameView {
            selected: Some(c),
            moves: Set::new(|to: (int, int)| destination(v.board, v.board[c], c, to)),
            ..v
        }
    } else {
        unselected(v)
    }
}

/// The game after a click on the square `c`. Clicks off the board, and
/// clicks while the game waits for a promotion choice, change nothing.
/// Otherwise, in this order: a click on the selected square drops the
/// selection; a castling gesture is carried out or forfeits the turn; a
/// click on a cached destination moves the selected piece; any other click
/// selects or unselects.
pub open spec fn click(v: GameView, c: (int, int)) -> GameView {
    if !on_board(c) || v.state != State::Select {
        v
    } else if v.selected == Some(c) {
        unselected(v)
    } else if castling_attempt(v, c) {
        after_castling_attempt(v, c)
    } else if move_chosen(v, c) {
        after_chosen_move(v, c)
    } else {
        after_select(v, c)
    }
}

} // verus!
