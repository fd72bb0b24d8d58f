//! The move generator: the squares a piece may move to.

use crate::field::{board_of, on_board, sq, Board, Field};
use crate::figure::Team;
use crate::rules::{
    dist, empty_at, forward, landable, pawn_dest, ray_square, scaled, slide_dest, unit_dir,
};
use vstd::prelude::*;

verus! {

/// Whether a pair of signed coordinates lies outside the board.
pub fn is_out_of_bounds(pos: (i16, i16)) -> (out: bool)
    ensures
        out == !on_board((pos.0 as int, pos.1 as int)),
{
    pos.0 < 0 || pos.0 >= 8 || pos.1 < 0 || pos.1 >= 8
}

/// Whether a piece stands on the given square of the board.
pub fn is_figure_on_field(pos: (usize, usize), fields: &[[Field; 8]; 8]) -> (occupied: bool)
    requires
        on_board(sq(pos)),
    ensures
        occupied == board_of(*fields).contains_key(sq(pos)),
{
    fields[pos.0][pos.1].figure.is_some()
}

/// The square itself if a piece of `team` may land on it, that is, if it is on
/// the board and holds no piece of the same side.
pub fn is_move_valid(pos: (i16, i16), fields: &[[Field; 8]; 8], team: Team) -> (mv: Option<
    (usize, usize),
>)
    ensures
        mv is Some <==> landable(board_of(*fields), team, (pos.0 as int, pos.1 as int)),
        mv is Some ==> sq(mv->Some_0) == (pos.0 as int, pos.1 as int),
{
    if is_out_of_bounds(pos) {
        return None;
    }
    let row: usize = pos.0 as usize;
    let col: usize = pos.1 as usize;
    match fields[row][col].figure {
        Some(figure) => {
            if team == figure.team {
                None
            } else {
                Some((row, col))
            }
        },
        None => Some((row, col)),
    }
}

/// The square itself if a pawn may step onto it, that is, if it is on the
/// board and empty.
pub fn is_pawn_move_valid(pos: (usize, usize), fields: &[[Field; 8]; 8]) -> (mv: Option<
    (usize, usize),
>)
    ensures
        mv is Some <==> on_board(sq(pos)) && empty_at(board_of(*fields), sq(pos)),
        mv is Some ==> mv->Some_0 == pos,
{
    if pos.0 >= 8 || pos.1 >= 8 {
        return None;
    }
    match fields[pos.0][pos.1].figure {
        Some(_) => None,
        None => Some(pos),
    }
}

/// Appending an element that a duplicate-free sequence lacks keeps it
/// duplicate-free.
pub proof fn lemma_push_no_duplicates<T>(s: Seq<T>, x: T)
    requires
        s.no_duplicates(),
        !s.contains(x),
    ensures
        s.push(x).no_duplicates(),
{
    broadcast use vstd::seq_lib::lemma_seq_contains;

}

/// The row one pawn step ahead of `row` for `team`, if it is on the board.
fn row_ahead(row: usize, team: Team) -> (ahead: Option<usize>)
    requires
        row < 8,
    ensures
        ahead is Some <==> 0 <= row + forward(team) < 8,
        ahead is Some ==> ahead->Some_0 == row + forward(team),
{
    match team {
        Team::White => if row >= 1 {
            Some(row - 1)
        } else {
            None
        },
        Team::Black => if row + 1 < 8 {
            Some(row + 1)
        } else {
            None
        },
    }
}

/// The squares a pawn of `team` standing on `pos` may move to: one step
/// forward onto an empty square, two steps on its first move if both squares
/// are empty, and one step diagonally forward onto an opposing piece.
pub fn pawn_moves(
    pos: (usize, usize),
    fields: &[[Field; 8]; 8],
    team: Team,
    first_move: bool,
) -> (moves: Vec<(usize, usize)>)
    requires
        on_board(sq(pos)),
    ensures
        forall|to: (usize, usize)|
            moves@.contains(to) <==> pawn_dest(
                board_of(*fields),
                team,
                first_move,
                sq(pos),
                sq(to),
            ),
        moves@.no_duplicates(),
{
    broadcast use {
        vstd::seq_lib::lemma_seq_contains_after_push,
        vstd::seq_lib::lemma_seq_empty_contains_nothing,
    };

    let mut moves: Vec<(usize, usize)> = Vec::new();
    let col: usize = pos.1;
    let row: usize = match row_ahead(pos.0, team) {
        Some(r) => r,
        None => {
            return moves;
        },
    };
    if col != 0 {
        if let Some(figure) = fields[row][col - 1].figure {
            if team != figure.team {
                moves.push((row, col - 1));
            }
        }
    }
    if col + 1 < 8 {
        if let Some(figure) = fields[row][col + 1].figure {
            if team != figure.team {
                proof {
                    lemma_push_no_duplicates(moves@, (row, (col + 1) as usize));
                }
                moves.push((row, col + 1));
            }
        }
    }
    if let Some(mv) = is_pawn_move_valid((row, col), fields) {
        proof {
            lemma_push_no_duplicates(moves@, mv);
        }
        moves.push(mv)
    } else {
        return moves;
    }
    if first_move {
        if let Some(far) = row_ahead(row, team) {
            if let Some(mv) = is_pawn_move_valid((far, col), fields) {
                proof {
                    lemma_push_no_duplicates(moves@, mv);
                }
                moves.push(mv)
            }
        }
    }
    moves
}

/// The squares met from the `k`-th step on when a piece of `team` walks from
/// `from` in direction `dir`: empty squares one after another, then an
/// opposing piece if one ends the walk.
pub open spec fn ray_seq(b: Board, team: Team, from: (int, int), dir: (int, int), k: int) -> Seq<
    (int, int),
>
    decreases 8 - k,
{
    let s = ray_square(from, dir, k);
    if k < 1 || k >= 8 || !landable(b, team, s) {
        Seq::empty()
    } else if b.contains_key(s) {
        seq![s]
    } else {
        seq![s] + ray_seq(b, team, from, dir, k + 1)
    }
}

/// The walks in each of `dirs`, one after another.
pub open spec fn walks(b: Board, team: Team, from: (int, int), dirs: Seq<(int, int)>) -> Seq<
    (int, int),
>
    decreases dirs.len(),
{
    if dirs.len() == 0 {
        Seq::empty()
    } else {
        ray_seq(b, team, from, dirs[0], 1) + walks(b, team, from, dirs.drop_first())
    }
}

/// A walk hands out exactly the squares that sliding in its direction
/// reaches, each once. Stated for the walk from the `k`-th step on, given
/// that the squares before it are empty.
pub proof fn lemma_ray_seq(b: Board, team: Team, from: (int, int), dir: (int, int), k: int)
    requires
        on_board(from),
        unit_dir(dir),
        1 <= k,
        forall|j: int| 1 <= j < k ==> empty_at(b, #[trigger] ray_square(from, dir, j)),
    ensures
        forall|to: (int, int)| #[trigger]
            ray_seq(b, team, from, dir, k).contains(to) <==> slide_dest(b, team, from, dir, to)
                && dist(from, to) >= k,
        ray_seq(b, team, from, dir, k).no_duplicates(),
    decreases 8 - k,
{
    broadcast use {
        vstd::seq_lib::lemma_seq_contains_after_push,
        vstd::seq_lib::lemma_seq_empty_contains_nothing,
        vstd::seq_lib::lemma_seq_concat_contains_all_elements,
    };

    let s = ray_square(from, dir, k);
    let ray = ray_seq(b, team, from, dir, k);
    assert(dist(from, s) == k);
    if k >= 8 || !landable(b, team, s) {
        assert forall|to: (int, int)| slide_dest(b, team, from, dir, to) && dist(from, to)
            >= k implies false by {
            let d = dist(from, to);
            assert(on_board(ray_square(from, dir, d)));
            if d > k {
                assert(empty_at(b, ray_square(from, dir, k)));
                assert(on_board(s));
            }
        }
    } else if b.contains_key(s) {
        assert(ray =~= seq![s]);
        assert(seq![s] =~= Seq::<(int, int)>::empty().push(s));
        assert forall|to: (int, int)| slide_dest(b, team, from, dir, to) && dist(from, to)
            >= k implies to == s by {
            let d = dist(from, to);
            if d > k {
                assert(empty_at(b, ray_square(from, dir, k)));
            }
        }
        assert(slide_dest(b, team, from, dir, s));
    } else {
        let tail = ray_seq(b, team, from, dir, k + 1);
        assert(ray =~= seq![s] + tail);
        assert(seq![s] =~= Seq::<(int, int)>::empty().push(s));
        assert forall|j: int| 1 <= j < k + 1 implies empty_at(
            b,
            #[trigger] ray_square(from, dir, j),
        ) by {
            if j == k {
            }
        }
        lemma_ray_seq(b, team, from, dir, k + 1);
        assert(slide_dest(b, team, from, dir, s));
        assert(!tail.contains(s));
        assert forall|i: int, j: int| 0 <= i < seq![s].len() && 0 <= j < tail.len() implies seq![
            s,
        ][i] != tail[j] by {
            assert(tail.contains(tail[j]));
        }
        vstd::seq_lib::lemma_no_dup_in_concat(seq![s], tail);
    }
}

/// Walks in distinct directions hand out exactly the squares that sliding in
/// one of the directions reaches, each once.
pub proof fn lemma_walks(b: Board, team: Team, from: (int, int), dirs: Seq<(int, int)>)
    requires
        on_board(from),
        dirs.no_duplicates(),
        forall|i: int| 0 <= i < dirs.len() ==> unit_dir(#[trigger] dirs[i]),
    ensures
        forall|to: (int, int)| #[trigger]
            walks(b, team, from, dirs).contains(to) <==> exists|i: int|
                0 <= i < dirs.len() && slide_dest(b, team, from, #[trigger] dirs[i], to),
        walks(b, team, from, dirs).no_duplicates(),
    decreases dirs.len(),
{
    broadcast use {
        vstd::seq_lib::lemma_seq_empty_contains_nothing,
        vstd::seq_lib::lemma_seq_concat_contains_all_elements,
    };

    if dirs.len() > 0 {
        let head = ray_seq(b, team, from, dirs[0], 1);
        let rest = dirs.drop_first();
        let tail = walks(b, team, from, rest);
        assert forall|i: int| 0 <= i < rest.len() implies unit_dir(#[trigger] rest[i]) by {
            assert(rest[i] == dirs[i + 1]);
        }
        lemma_ray_seq(b, team, from, dirs[0], 1);
        lemma_walks(b, team, from, rest);
        assert forall|to: (int, int)| #[trigger]
            walks(b, team, from, dirs).contains(to) <==> exists|i: int|
                0 <= i < dirs.len() && slide_dest(b, team, from, #[trigger] dirs[i], to) by {
            if head.contains(to) {
                assert(slide_dest(b, team, from, dirs[0], to));
            }
            if tail.contains(to) {
                let i = choose|i: int|
                    0 <= i < rest.len() && slide_dest(b, team, from, #[trigger] rest[i], to);
                assert(rest[i] == dirs[i + 1]);
            }
            if exists|i: int|
                0 <= i < dirs.len() && slide_dest(b, team, from, #[trigger] dirs[i], to) {
                let i = choose|i: int|
                    0 <= i < dirs.len() && slide_dest(b, team, from, #[trigger] dirs[i], to);
                if i > 0 {
                    assert(rest[i - 1] == dirs[i]);
                }
            }
        }
        assert forall|i: int, j: int| 0 <= i < head.len() && 0 <= j < tail.len() implies head[i]
            != tail[j] by {
            assert(head.contains(head[i]));
            assert(tail.contains(tail[j]));
            if head[i] == tail[j] {
                let n = choose|n: int|
                    0 <= n < rest.len() && slide_dest(b, team, from, #[trigger] rest[n], tail[j]);
                assert(rest[n] == dirs[n + 1]);
                assert(dirs[n + 1] != dirs[0]);
            }
        }
        vstd::seq_lib::lemma_no_dup_in_concat(head, tail);
    }
}

/// A direction held as machine integers, as a pair of integers.
pub open spec fn dir_of(d: (i16, i16)) -> (int, int) {
    (d.0 as int, d.1 as int)
}

/// A lazy walk over the destinations of a sliding piece, one direction after
/// another.
pub struct ValidMovesIter<'a> {
    row: usize,
    col: usize,
    fadds: Vec<(i16, i16)>,
    taken: usize,
    add: i16,
    fields: &'a [[Field; 8]; 8],
    started_invalid: bool,
    fadd: Option<(i16, i16)>,
    team: Team,
}

impl<'a> ValidMovesIter<'a> {
    /// The origin is on the board, every direction is one of the eight unit
    /// directions, and the step counter is in range.
    pub closed spec fn wf(&self) -> bool {
        &&& self.row < 8
        &&& self.col < 8
        &&& self.taken <= self.fadds.len()
        &&& 1 <= self.add <= 8
        &&& forall|i: int| 0 <= i < self.fadds.len() ==> unit_dir(dir_of(#[trigger] self.fadds[i]))
        &&& match self.fadd {
            Some(d) => unit_dir(dir_of(d)),
            None => !self.started_invalid,
        }
    }

    /// The board walked on.
    pub closed spec fn board(&self) -> Board {
        board_of(*self.fields)
    }

    /// The square the walks start from.
    pub closed spec fn origin(&self) -> (int, int) {
        (self.row as int, self.col as int)
    }

    /// The side of the walking piece.
    pub closed spec fn side(&self) -> Team {
        self.team
    }

    /// The directions not yet begun.
    pub closed spec fn pending(&self) -> Seq<(int, int)> {
        self.fadds@.subrange(self.taken as int, self.fadds.len() as int).map_values(
            |d: (i16, i16)| dir_of(d),
        )
    }

    /// Whether a direction is being walked.
    pub closed spec fn walking(&self) -> bool {
        self.fadd is Some
    }

    /// The destinations still to be handed out, in order.
    pub closed spec fn remaining(&self) -> Seq<(int, int)> {
        match self.fadd {
            None => Seq::empty(),
            Some(d) => (if self.started_invalid {
                Seq::empty()
            } else {
                ray_seq(self.board(), self.team, self.origin(), dir_of(d), self.add as int)
            }) + walks(self.board(), self.team, self.origin(), self.pending()),
        }
    }

    /// Abandons the direction being walked and turns to the next one.
    pub fn next_fn(&mut self)
        requires
            old(self).wf(),
        ensures
            final(self).wf(),
            final(self).board() == old(self).board(),
            final(self).origin() == old(self).origin(),
            final(self).side() == old(self).side(),
            final(self).remaining() == walks(
                old(self).board(),
                old(self).side(),
                old(self).origin(),
                old(self).pending(),
            ),
            old(self).pending().len() > 0 ==> final(self).pending() == old(
                self,
            ).pending().drop_first(),
            old(self).pending().len() == 0 ==> final(self).pending().len() == 0,
            final(self).walking() == (old(self).pending().len() > 0),
    {
        self.add = 1;
        if self.taken < self.fadds.len() {
            self.fadd = Some(self.fadds[self.taken]);
            self.taken = self.taken + 1;
            proof {
                assert(self.pending() =~= old(self).pending().drop_first());
                assert(dir_of(old(self).fadds[old(self).taken as int]) == old(self).pending()[0]);
            }
        } else {
            self.fadd = None;
        }
        self.started_invalid = false;
    }

    /// Hands out the next destination, or `None` when every direction has
    /// been walked to its end.
    pub fn next(&mut self) -> (mv: Option<(usize, usize)>)
        requires
            old(self).wf(),
        ensures
            final(self).wf(),
            final(self).board() == old(self).board(),
            final(self).origin() == old(self).origin(),
            final(self).side() == old(self).side(),
            match mv {
                Some(m) => old(self).remaining() == seq![sq(m)] + final(self).remaining(),
                None => old(self).remaining().len() == 0 && final(self).remaining().len() == 0,
            },
    {
        loop
            invariant
                self.wf(),
                self.board() == old(self).board(),
                self.origin() == old(self).origin(),
                self.side() == old(self).side(),
                self.remaining() == old(self).remaining(),
            decreases
                    self.pending().len() + (if self.walking() {
                        1nat
                    } else {
                        0nat
                    }),
        {
            if self.started_invalid {
                self.next_fn();
                continue ;
            }
            let fadd: (i16, i16) = match self.fadd {
                Some(d) => d,
                None => {
                    return None;
                },
            };
            let mv: (i16, i16) = (
                self.row as i16 + step(fadd.0, self.add),
                self.col as i16 + step(fadd.1, self.add),
            );
            if is_out_of_bounds(mv) {
                self.next_fn();
                continue ;
            }
            let mv: (usize, usize) = (mv.0 as usize, mv.1 as usize);
            if let Some(figure) = self.fields[mv.0][mv.1].figure {
                if self.team == figure.team {
                    self.next_fn();
                    continue ;
                }
            }
            let ghost before = self.remaining();
            let ghost ray = ray_seq(
                self.board(),
                self.team,
                self.origin(),
                dir_of(fadd),
                self.add as int,
            );
            let ghost rest = walks(self.board(), self.team, self.origin(), self.pending());
            self.started_invalid = is_figure_on_field(mv, self.fields);
            self.add += 1;
            proof {
                assert(before == ray + rest);
                if self.started_invalid {
                    assert(ray =~= seq![sq(mv)]);
                    assert(self.remaining() =~= rest);
                } else {
                    let tail = ray_seq(
                        self.board(),
                        self.team,
                        self.origin(),
                        dir_of(fadd),
                        self.add as int,
                    );
                    assert(ray =~= seq![sq(mv)] + tail);
                    assert(self.remaining() == tail + rest);
                }
                assert(before =~= seq![sq(mv)] + self.remaining());
            }
            return Some(mv);
        }
    }
}

/// `k` steps along one axis in the direction of the sign of `d`.
fn step(d: i16, k: i16) -> (s: i16)
    requires
        0 <= k <= 8,
    ensures
        s == scaled(d as int, k as int),
{
    if d > 0 {
        k
    } else if d < 0 {
        -k
    } else {
        0
    }
}

/// The directions held in a vector, as pairs of integers.
pub open spec fn dirs_of(f: Seq<(i16, i16)>) -> Seq<(int, int)> {
    f.map_values(|d: (i16, i16)| dir_of(d))
}

/// A sliding piece's walks, not yet begun: the origin, the directions, the
/// board and the side.
pub struct ValidMoves<'a> {
    row: usize,
    col: usize,
    f: Vec<(i16, i16)>,
    fields: &'a [[Field; 8]; 8],
    team: Team,
}

impl<'a> ValidMoves<'a> {
    /// The square the walks start from.
    pub closed spec fn origin(&self) -> (int, int) {
        (self.row as int, self.col as int)
    }

    /// The directions walked, in order.
    pub closed spec fn dirs(&self) -> Seq<(int, int)> {
        dirs_of(self.f@)
    }

    /// The board walked on.
    pub closed spec fn board(&self) -> Board {
        board_of(*self.fields)
    }

    /// The side of the walking piece.
    pub closed spec fn side(&self) -> Team {
        self.team
    }

    /// The walks of a piece of `team` from (`row`, `col`) in the directions
    /// `f`, each a pair of row and column steps.
    pub fn new(
        row: usize,
        col: usize,
        f: Vec<(i16, i16)>,
        fields: &'a [[Field; 8]; 8],
        team: Team,
    ) -> (moves: Self)
        ensures
            moves.origin() == (row as int, col as int),
            moves.dirs() == dirs_of(f@),
            moves.board() == board_of(*fields),
            moves.side() == team,
    {
        Self { row, col, f, fields, team }
    }

    /// Begins the walks.
    pub fn into_iter(self) -> (it: ValidMovesIter<'a>)
        requires
            on_board(self.origin()),
            forall|i: int| 0 <= i < self.dirs().len() ==> unit_dir(#[trigger] self.dirs()[i]),
        ensures
            it.wf(),
            it.board() == self.board(),
            it.origin() == self.origin(),
            it.side() == self.side(),
            it.remaining() == walks(self.board(), self.side(), self.origin(), self.dirs()),
    {
        let mut valid_moves_iter = ValidMovesIter {
            row: self.row,
            col: self.col,
            fadds: self.f,
            taken: 0,
            add: 1,
            fields: self.fields,
            started_invalid: false,
            fadd: None,
            team: self.team,
        };
        proof {
            assert(valid_moves_iter.pending() =~= self.dirs());
            assert forall|i: int| 0 <= i < valid_moves_iter.fadds.len() implies unit_dir(
                dir_of(#[trigger] valid_moves_iter.fadds[i]),
            ) by {
                assert(self.dirs()[i] == dir_of(self.f[i]));
            }
        }
        valid_moves_iter.next_fn();
        valid_moves_iter
    }
}

impl<'a> ValidMovesIter<'a> {
    /// Walks to the end and gathers every destination, in order.
    pub fn collect(self) -> (moves: Vec<(usize, usize)>)
        requires
            self.wf(),
        ensures
            moves@.map_values(|m: (usize, usize)| sq(m)) == self.remaining(),
    {
        let mut it = self;
        let mut moves: Vec<(usize, usize)> = Vec::new();
        loop
            invariant
                it.wf(),
                moves@.map_values(|m: (usize, usize)| sq(m)) + it.remaining() == self.remaining(),
            decreases it.remaining().len(),
        {
            let ghost gathered = moves@.map_values(|m: (usize, usize)| sq(m));
            let ghost before = it.remaining();
            match it.next() {
                Some(mv) => {
                    moves.push(mv);
                    proof {
                        assert(moves@.map_values(|m: (usize, usize)| sq(m)) =~= gathered.push(
                            sq(mv),
                        ));
                        assert(gathered.push(sq(mv)) + it.remaining() =~= gathered + before);
                    }
                },
                None => {
                    proof {
                        assert(gathered + before =~= gathered);
                    }
                    return moves;
                },
            }
        }
    }
}

/// The four diagonal directions.
pub open spec fn bishop_dirs() -> Seq<(int, int)> {
    seq![(1, 1), (-1, -1), (-1, 1), (1, -1)]
}

/// The four straight directions.
pub open spec fn rook_dirs() -> Seq<(int, int)> {
    seq![(0, 1), (0, -1), (1, 0), (-1, 0)]
}

/// The diagonal walks of a piece of `team` standing on `pos`.
pub fn bishop_moves<'a>(pos: (usize, usize), fields: &'a [[Field; 8]; 8], team: Team) -> (moves:
    ValidMoves<'a>)
    ensures
        moves.origin() == sq(pos),
        moves.dirs() == bishop_dirs(),
        moves.board() == board_of(*fields),
        moves.side() == team,
{
    let f: Vec<(i16, i16)> = vec![(1, 1), (-1, -1), (-1, 1), (1, -1)];
    proof {
        assert(dirs_of(f@) =~= bishop_dirs());
    }
    ValidMoves::new(pos.0, pos.1, f, fields, team)
}

/// The straight walks of a piece of `team` standing on `pos`.
pub fn rook_moves<'a>(pos: (usize, usize), fields: &'a [[Field; 8]; 8], team: Team) -> (moves:
    ValidMoves<'a>)
    ensures
        moves.origin() == sq(pos),
        moves.dirs() == rook_dirs(),
        moves.board() == board_of(*fields),
        moves.side() == team,
{
    let f: Vec<(i16, i16)> = vec![(0, 1), (0, -1), (1, 0), (-1, 0)];
    proof {
        assert(dirs_of(f@) =~= rook_dirs());
    }
    ValidMoves::new(pos.0, pos.1, f, fields, team)
}

} // verus!
