//! What holds of the rules and of the game, proved from their definitions.

use crate::chess::{initial_board, State};
use crate::field::{on_board, Board};
use crate::figure::{Figure, FigureType, Team};
use crate::model::{
    after_move, attacked, attacks, behind, between, castling_at_home, castling_pair,
    castling_path_clear, castling_valid, castled, click, home_row, in_check, king_at, king_leg, last_row,
    moved_piece, opposing_pawn, promoted, promotion_pending, rook_leg, GameView,
};
use crate::rules::{
    destination, dist, empty_at, forward, holds_team, pawn_dest, ray_reaches, ray_square,
    rook_dest, slide_dest, unit_dir,
};
use crate::valid_moves::ray_seq;
use vstd::prelude::*;

verus! {

/// On a board that is empty but for the rook's own square, a rook reaches
/// every other square of its row and of its column, up to the edges of the
/// board, and no other square.
pub proof fn lemma_rook_alone(b: Board, team: Team, from: (int, int), to: (int, int))
    requires
        on_board(from),
        forall|s: (int, int)| s != from ==> empty_at(b, s),
    ensures
        rook_dest(b, team, from, to) <==> on_board(to) && to != from && (to.0 == from.0 || to.1
            == from.1),
{
    if on_board(to) && to != from && (to.0 == from.0 || to.1 == from.1) {
        let k = dist(from, to);
        let dir: (int, int) = if to.0 == from.0 {
            if to.1 > from.1 {
                (0, 1)
            } else {
                (0, -1)
            }
        } else {
            if to.0 > from.0 {
                (1, 0)
            } else {
                (-1, 0)
            }
        };
        assert(to == ray_square(from, dir, k));
        assert forall|j: int| 1 <= j < k implies empty_at(
            b,
            #[trigger] ray_square(from, dir, j),
        ) by {
            assert(ray_square(from, dir, j) != from);
        }
        assert(empty_at(b, to));
        assert(slide_dest(b, team, from, dir, to));
    }
}

/// Where the first piece met in a direction stands `n` steps away, a sliding
/// piece reaches in that direction exactly the `n - 1` empty squares before
/// it, and the piece's own square as well if the piece is an opposing one:
/// `n` destinations then, `n - 1` if the piece is of the same side.
pub proof fn lemma_ray_blocked(
    b: Board,
    team: Team,
    from: (int, int),
    dir: (int, int),
    n: int,
    to: (int, int),
)
    requires
        on_board(from),
        unit_dir(dir),
        1 <= n,
        on_board(ray_square(from, dir, n)),
        b.contains_key(ray_square(from, dir, n)),
        forall|j: int| 1 <= j < n ==> empty_at(b, #[trigger] ray_square(from, dir, j)),
    ensures
        slide_dest(b, team, from, dir, to) <==> exists|k: int|
            1 <= k <= reach(b, team, from, dir, n) && to == #[trigger] ray_square(from, dir, k),
        ray_seq(b, team, from, dir, 1).len() == reach(b, team, from, dir, n),
{
    let last = reach(b, team, from, dir, n);
    if slide_dest(b, team, from, dir, to) {
        let k = dist(from, to);
        if k > n {
            assert(empty_at(b, ray_square(from, dir, n)));
        }
        assert(1 <= k <= last && to == ray_square(from, dir, k));
    }
    if exists|k: int| 1 <= k <= last && to == #[trigger] ray_square(from, dir, k) {
        let k = choose|k: int| 1 <= k <= last && to == #[trigger] ray_square(from, dir, k);
        assert(dist(from, to) == k);
        assert(on_board(ray_square(from, dir, k)));
        assert(ray_reaches(b, team, from, dir, k));
    }
    lemma_ray_len(b, team, from, dir, n, 1);
}

/// How many squares a piece of `team` reaches in a direction in which the
/// first piece met stands `n` steps away.
pub open spec fn reach(b: Board, team: Team, from: (int, int), dir: (int, int), n: int) -> int {
    if holds_team(b, team, ray_square(from, dir, n)) {
        n - 1
    } else {
        n
    }
}

/// The length of a walk from its `k`-th step on, where the first piece met
/// stands `n` steps away.
proof fn lemma_ray_len(b: Board, team: Team, from: (int, int), dir: (int, int), n: int, k: int)
    requires
        on_board(from),
        unit_dir(dir),
        1 <= k <= n,
        on_board(ray_square(from, dir, n)),
        b.contains_key(ray_square(from, dir, n)),
        forall|j: int| 1 <= j < n ==> empty_at(b, #[trigger] ray_square(from, dir, j)),
    ensures
        ray_seq(b, team, from, dir, k).len() == reach(b, team, from, dir, n) - k + 1,
    decreases n - k,
{
    assert(on_board(ray_square(from, dir, k)));
    if k < n {
        assert(empty_at(b, ray_square(from, dir, k)));
        lemma_ray_len(b, team, from, dir, n, k + 1);
    }
}

/// A pawn that has not moved, with the two squares ahead of it on the board
/// and empty, has exactly those two destinations in its column. A pawn that
/// has moved has at most the first of them.
pub proof fn lemma_pawn_forward(b: Board, team: Team, from: (int, int), to: (int, int))
    requires
        on_board(from),
        to.1 == from.1,
    ensures
        on_board((from.0 + 2 * forward(team), from.1)) && empty_at(
            b,
            (from.0 + forward(team), from.1),
        ) && empty_at(b, (from.0 + 2 * forward(team), from.1)) ==> (pawn_dest(
            b,
            team,
            true,
            from,
            to,
        ) <==> to.0 == from.0 + forward(team) || to.0 == from.0 + 2 * forward(team)),
        pawn_dest(b, team, false, from, to) ==> to.0 == from.0 + forward(team),
{
}

/// The square diagonally ahead of a pawn is one of its destinations exactly
/// if an opposing piece stands on it.
pub proof fn lemma_pawn_diagonal(
    b: Board,
    team: Team,
    first_move: bool,
    from: (int, int),
    to: (int, int),
)
    requires
        on_board(to),
        to.0 == from.0 + forward(team),
        to.1 == from.1 - 1 || to.1 == from.1 + 1,
    ensures
        pawn_dest(b, team, first_move, from, to) <==> holds_team(b, team.other(), to),
{
}

/// `s` lies strictly between `a` and `c` on the row or the column that the
/// two share.
pub open spec fn on_line_between(a: (int, int), c: (int, int), s: (int, int)) -> bool {
    ||| a.0 == c.0 && s.0 == a.0 && between(a.1, c.1, s.1)
    ||| a.1 == c.1 && s.1 == a.1 && between(a.0, c.0, s.0)
}

/// The straight direction that leads from `a` toward `c`.
spec fn toward(a: (int, int), c: (int, int)) -> (int, int) {
    if a.0 == c.0 {
        if c.1 > a.1 {
            (0, 1)
        } else {
            (0, -1)
        }
    } else {
        if c.0 > a.0 {
            (1, 0)
        } else {
            (-1, 0)
        }
    }
}

/// An opposing rook that shares a row or a column with the king, with every
/// square between the two empty, gives check.
pub proof fn lemma_rook_gives_check(b: Board, team: Team, king: (int, int), rook: (int, int))
    requires
        king_at(b, team, king),
        on_board(rook),
        b.contains_key(rook),
        b[rook].figure == FigureType::Rook,
        b[rook].team != team,
        king.0 == rook.0 || king.1 == rook.1,
        forall|s: (int, int)| on_line_between(rook, king, s) ==> empty_at(b, s),
    ensures
        in_check(b, team),
{
    let dir = toward(rook, king);
    let n = dist(rook, king);
    assert(king == ray_square(rook, dir, n));
    assert forall|j: int| 1 <= j < n implies empty_at(b, #[trigger] ray_square(rook, dir, j)) by {
        assert(on_line_between(rook, king, ray_square(rook, dir, j)));
    }
    assert(slide_dest(b, b[rook].team, rook, dir, king));
    assert(attacks(b, team, rook, king));
}

/// An opposing rook that shares a row or a column with the king does not
/// attack it if a piece stands between the two; if no other piece attacks the
/// king either, the king's side is not in check.
pub proof fn lemma_rook_blocked(
    b: Board,
    team: Team,
    king: (int, int),
    rook: (int, int),
    blocker: (int, int),
)
    requires
        king_at(b, team, king),
        on_board(rook),
        b.contains_key(rook),
        b[rook].figure == FigureType::Rook,
        b[rook].team != team,
        king.0 == rook.0 || king.1 == rook.1,
        on_line_between(rook, king, blocker),
        b.contains_key(blocker),
    ensures
        !attacks(b, team, rook, king),
        (forall|s: (int, int)| s != rook ==> !attacks(b, team, s, king)) ==> !in_check(b, team),
{
    let dir = toward(rook, king);
    let n = dist(rook, king);
    let j = dist(rook, blocker);
    assert(blocker == ray_square(rook, dir, j));
    assert(1 <= j < n);
    assert(!empty_at(b, ray_square(rook, dir, j)));
    assert(!slide_dest(b, b[rook].team, rook, dir, king));
    assert(!rook_dest(b, b[rook].team, rook, king));
    if forall|s: (int, int)| s != rook ==> !attacks(b, team, s, king) {
        assert forall|s: (int, int)| king_at(b, team, s) implies !attacked(b, team, s) by {
            assert(s == king);
        }
    }
}

/// The rook's column for the short or the long castling.
pub open spec fn corner_col(short: bool) -> int {
    if short {
        7
    } else {
        0
    }
}

/// The castling gesture is being completed by a click on `c`: the game waits
/// for a click, and the selected square and `c` hold the unmoved king of the
/// side to move on its home square and its unmoved rook in the corner of the
/// short or of the long side, in either order.
pub open spec fn castling_set_up(v: GameView, c: (int, int), short: bool) -> bool {
    let king = (home_row(v.player), 4int);
    let rook = (home_row(v.player), corner_col(short));
    &&& v.state == State::Select
    &&& v.selected == Some(king) && c == rook || v.selected == Some(rook) && c == king
    &&& castling_pair(v.board, v.player, king, rook)
    &&& v.board[king].figure == FigureType::King
}

/// Castling with the squares between king and rook empty, by a side that is
/// not in check: the king ends two squares from its home square on the
/// rook's side, the rook on the square the king has passed over, both count
/// as moved, their old squares are empty, and the turn passes.
pub proof fn lemma_castling(v: GameView, c: (int, int), short: bool)
    requires
        castling_set_up(v, c, short),
        forall|col: int|
            between(4, corner_col(short), col) ==> empty_at(v.board, (home_row(v.player), col)),
        !in_check(v.board, v.player),
    ensures
        ({
            let h = home_row(v.player);
            let w = click(v, c);
            &&& w.board.contains_key((h, 4 + king_leg(short)))
            &&& w.board[(h, 4 + king_leg(short))] == moved_piece(v.board[(h, 4)])
            &&& w.board.contains_key((h, 4 + king_leg(short) + rook_leg(short)))
            &&& w.board[(h, 4 + king_leg(short) + rook_leg(short))] == moved_piece(
                v.board[(h, corner_col(short))],
            )
            &&& !w.board.contains_key((h, 4))
            &&& !w.board.contains_key((h, corner_col(short)))
            &&& w.player == v.player.other()
            &&& w.selected is None
        }),
{
    let a = v.selected->Some_0;
    assert(castling_path_clear(v.board, a, c)) by {
        assert forall|col: int| between(a.1, c.1, col) implies #[trigger] empty_at(
            v.board,
            (a.0, col),
        ) by {
            assert(between(4, corner_col(short), col));
        }
    }
    assert(castling_valid(v.board, a, c) == Some(short));
    assert(castling_at_home(v.board, v.player, a, c));
}

/// The same gesture with a piece between king and rook: nothing moves, yet
/// the turn passes and the selection is dropped.
pub proof fn lemma_castling_blocked(v: GameView, c: (int, int), short: bool, col: int)
    requires
        castling_set_up(v, c, short),
        between(4, corner_col(short), col),
        v.board.contains_key((home_row(v.player), col)),
    ensures
        click(v, c).board == v.board,
        click(v, c).player == v.player.other(),
        click(v, c).selected is None,
{
    let a = v.selected->Some_0;
    assert(between(a.1, c.1, col) && !empty_at(v.board, (a.0, col)));
    assert(castling_valid(v.board, a, c) is None);
}

/// Capturing in passing: a pawn advances two squares and lands beside an
/// opposing pawn; when that pawn then moves onto the square that the first
/// has passed over, the first pawn leaves the board.
pub proof fn lemma_en_passant(v: GameView, from: (int, int), beside: (int, int))
    requires
        on_board(from),
        v.board.contains_key(from),
        v.board[from].figure == FigureType::Pawn,
        on_board((from.0 + 2 * forward(v.board[from].team), from.1)),
        beside.0 == from.0 + 2 * forward(v.board[from].team),
        beside.1 == from.1 - 1 || beside.1 == from.1 + 1,
        opposing_pawn(v.board, v.board[from].team, beside),
    ensures
        ({
            let team = v.board[from].team;
            let to = (from.0 + 2 * forward(team), from.1);
            let passed = (from.0 + forward(team), from.1);
            let w = after_move(after_move(v, from, to), beside, passed);
            &&& !w.board.contains_key(to)
            &&& w.board.contains_key(passed)
            &&& w.board[passed] == moved_piece(v.board[beside])
        }),
{
    let team = v.board[from].team;
    let to = (from.0 + 2 * forward(team), from.1);
    let passed = (from.0 + forward(team), from.1);
    let v1 = after_move(v, from, to);
    assert(v1.board.contains_key(beside) && v1.board[beside] == v.board[beside]);
    assert(opposing_pawn(v1.board, team, beside));
    let key = (beside.0, beside.1, team.other());
    assert(v1.en_passants.contains_key(key) && v1.en_passants[key] == to);
    assert(behind(team.other(), passed) == to);
}

/// Promotion: when the selected pawn is moved to the last row for its side,
/// the game waits for a promotion choice on that square and the turn does
/// not pass. Once a kind is chosen, a piece of that kind and of the side to
/// move stands there, counting as moved, and the turn passes.
pub proof fn lemma_promotion(v: GameView, c: (int, int), kind: FigureType)
    requires
        v.state == State::Select,
        v.selected is Some,
        on_board(v.selected->Some_0),
        on_board(c),
        v.selected->Some_0 != c,
        v.board.contains_key(v.selected->Some_0),
        v.board[v.selected->Some_0].figure == FigureType::Pawn,
        v.moves.contains(c),
        c.0 == last_row(v.board[v.selected->Some_0].team),
    ensures
        ({
            let w = click(v, c);
            &&& promotion_pending(w, c)
            &&& w.player == v.player
            &&& promoted(w, c, kind).board[c] == Figure {
                figure: kind,
                team: v.player,
                first_move: false,
            }
            &&& promoted(w, c, kind).board.contains_key(c)
            &&& promoted(w, c, kind).player == v.player.other()
            &&& promoted(w, c, kind).state == State::Select
        }),
{
}

/// The cached destinations are in step with the selection: none while
/// nothing is selected, else those of the selected piece on the board as it
/// stands.
pub open spec fn selection_fresh(v: GameView) -> bool {
    match v.selected {
        None => v.moves == Set::<(int, int)>::empty(),
        Some(s) => v.board.contains_key(s) && v.moves == Set::new(
            |to: (int, int)| destination(v.board, v.board[s], s, to),
        ),
    }
}

/// No click leaves stale destinations behind: they are worked out afresh
/// whenever a square is selected and dropped together with the selection.
pub proof fn lemma_click_keeps_selection_fresh(v: GameView, c: (int, int))
    requires
        selection_fresh(v),
    ensures
        selection_fresh(click(v, c)),
{
}

/// Nor does a promotion, which happens while nothing is selected.
pub proof fn lemma_promotion_keeps_selection_fresh(v: GameView, s: (int, int), kind: FigureType)
    requires
        selection_fresh(v),
        v.selected is None,
    ensures
        selection_fresh(promoted(v, s, kind)),
{
}

/// The piece on `s`, if it is a king, stands on its side's king square, and
/// if it is a rook, in a corner of its side's back rank.
pub open spec fn at_home(b: Board, s: (int, int)) -> bool {
    &&& b[s].figure == FigureType::King ==> s == (home_row(b[s].team), 4int)
    &&& b[s].figure == FigureType::Rook ==> s.0 == home_row(b[s].team) && (s.1 == 0 || s.1
        == 7)
}

/// Every king and every rook that has not moved is at home.
pub open spec fn unmoved_at_home(b: Board) -> bool {
    forall|s: (int, int)| #[trigger] b.contains_key(s) && b[s].first_move ==> at_home(b, s)
}

/// At the start of a game the unmoved kings and rooks are at home.
pub proof fn lemma_initial_board_at_home()
    ensures
        unmoved_at_home(initial_board()),
{
}

/// A move keeps them so: what it relocates counts as moved.
pub proof fn lemma_move_keeps_at_home(v: GameView, from: (int, int), to: (int, int))
    requires
        unmoved_at_home(v.board),
    ensures
        unmoved_at_home(after_move(v, from, to).board),
{
    let w = after_move(v, from, to).board;
    assert forall|s: (int, int)| #[trigger] w.contains_key(s) && w[s].first_move implies at_home(
        w,
        s,
    ) by {
        assert(v.board.contains_key(s));
    }
}

/// So does a click, whatever it brings about.
pub proof fn lemma_click_keeps_at_home(v: GameView, c: (int, int))
    requires
        unmoved_at_home(v.board),
    ensures
        unmoved_at_home(click(v, c).board),
{
    let w = click(v, c).board;
    if v.selected is Some {
        lemma_move_keeps_at_home(v, v.selected->Some_0, c);
    }
    assert forall|s: (int, int)| #[trigger] w.contains_key(s) && w[s].first_move implies at_home(
        w,
        s,
    ) by {
        if w != after_move(v, v.selected->Some_0, c).board {
            assert(v.board.contains_key(s));
        }
    }
}

/// And so does a promotion: the new piece counts as moved.
pub proof fn lemma_promotion_keeps_at_home(v: GameView, s: (int, int), kind: FigureType)
    requires
        unmoved_at_home(v.board),
    ensures
        unmoved_at_home(promoted(v, s, kind).board),
{
    let w = promoted(v, s, kind).board;
    assert forall|t: (int, int)| #[trigger] w.contains_key(t) && w[t].first_move implies at_home(
        w,
        t,
    ) by {
        assert(v.board.contains_key(t));
    }
}

/// On one row, whether castling can proceed, and which one it is, does not
/// depend on which of the two squares is named first.
pub proof fn lemma_castling_valid_symmetric(b: Board, a: (int, int), c: (int, int))
    requires
        a.0 == c.0,
    ensures
        castling_valid(b, a, c) == castling_valid(b, c, a),
{
    assert forall|col: int| between(a.1, c.1, col) <==> between(c.1, a.1, col) by {}
    if castling_path_clear(b, a, c) {
        assert forall|col: int| between(c.1, a.1, col) implies #[trigger] empty_at(
            b,
            (c.0, col),
        ) by {
            assert(between(a.1, c.1, col));
        }
    }
    if castling_path_clear(b, c, a) {
        assert forall|col: int| between(a.1, c.1, col) implies #[trigger] empty_at(
            b,
            (a.0, col),
        ) by {
            assert(between(c.1, a.1, col));
        }
    }
}

/// While the unmoved kings and rooks are at home, an unmoved king and rook
/// of the side to move stand where the castling move takes them from. So in
/// a game played from the initial position a castling attempt moves the
/// pieces exactly if every square between the two is empty and the side to
/// move is not in check, and it is the short one exactly if the two stand
/// three columns apart.
pub proof fn lemma_castling_at_home(v: GameView, c: (int, int))
    requires
        unmoved_at_home(v.board),
        v.state == State::Select,
        v.selected is Some,
        castling_pair(v.board, v.player, v.selected->Some_0, c),
    ensures
        castling_at_home(v.board, v.player, v.selected->Some_0, c),
        click(v, c).board == (match castling_valid(v.board, v.selected->Some_0, c) {
            Some(short) => if in_check(v.board, v.player) {
                v.board
            } else {
                castled(v.board, v.player, king_leg(short), rook_leg(short))
            },
            None => v.board,
        }),
        click(v, c).player == v.player.other(),
{
    let a = v.selected->Some_0;
    assert(v.board.contains_key(a) && v.board.contains_key(c));
    assert(at_home(v.board, a) && at_home(v.board, c));
}

} // verus!
