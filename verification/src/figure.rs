use crate::field::{board_of, on_board, sq, Board, Field};
use crate::rules::{
    bishop_dest, destination, dist, king_dest, knight_dest, knight_jump, landable, rook_dest,
    slide_dest, unit_dir,
};
use crate::valid_moves::{
    bishop_dirs, bishop_moves, is_move_valid, lemma_push_no_duplicates, lemma_walks, pawn_moves,
    rook_dirs, rook_moves, walks, ValidMoves,
};
use vstd::prelude::*;

verus! {

/// One of the two sides.
#[derive(Debug, Clone, Copy, PartialEq, Eq, Structural, PartialOrd, Ord, Hash)]
pub enum Team {
    White,
    Black,
}

impl Team {
    /// The opposing side.
    pub open spec fn other(self) -> Team {
        match self {
            Team::White => Team::Black,
            Team::Black => Team::White,
        }
    }

    /// The lower-case English name of the side.
    pub fn to_string(&self) -> (s: String)
        ensures
            s@ == (match *self {
                Team::White => "white"@,
                Team::Black => "black"@,
            }),
    {
        match self {
            Team::White => "white".to_string(),
            Team::Black => "black".to_string(),
        }
    }
}

impl std::ops::Not for Team {
    type Output = Team;

    fn not(self) -> (r: Team)
        ensures
            r == self.other(),
    {
        match self {
            Team::White => Team::Black,
            Team::Black => Team::White,
        }
    }
}

impl vstd::std_specs::ops::NotSpecImpl for Team {
    open spec fn obeys_not_spec() -> bool {
        true
    }

    open spec fn not_req(self) -> bool {
        true
    }

    open spec fn not_spec(self) -> Team {
        self.other()
    }
}

/// The six kinds of chess piece.
#[derive(Debug, Clone, Copy, PartialEq, Eq, Structural, Hash)]
pub enum FigureType {
    Pawn,
    King,
    Queen,
    Knight,
    Rook,
    Bishop,
}

/// A piece: its kind, its side, and whether it still stands where the game
/// began (`first_move` is true until the piece is relocated).
#[derive(Debug, Clone, Copy, PartialEq, Eq, Structural, Hash)]
pub struct Figure {
    pub figure: FigureType,
    pub team: Team,
    pub first_move: bool,
}

/// A sequence of squares held as machine integers names the same squares,
/// as often, as its image in pairs of integers.
proof fn lemma_squares(moves: Seq<(usize, usize)>)
    ensures
        forall|to: (usize, usize)|
            moves.contains(to) <==> moves.map_values(|m: (usize, usize)| sq(m)).contains(sq(to)),
        moves.map_values(|m: (usize, usize)| sq(m)).no_duplicates() ==> moves.no_duplicates(),
{
    let image = moves.map_values(|m: (usize, usize)| sq(m));
    assert forall|to: (usize, usize)| moves.contains(to) <==> image.contains(sq(to)) by {
        if moves.contains(to) {
            let i = choose|i: int| 0 <= i < moves.len() && moves[i] == to;
            assert(image[i] == sq(to));
        }
        if image.contains(sq(to)) {
            let i = choose|i: int| 0 <= i < image.len() && image[i] == sq(to);
            assert(moves[i] == to);
        }
    }
    if image.no_duplicates() {
        assert forall|i: int, j: int|
            0 <= i < moves.len() && 0 <= j < moves.len() && i != j implies moves[i] != moves[j] by {
            assert(image[i] != image[j]);
        }
    }
}

/// Every destination of the walks, gathered: the squares that sliding in one
/// of the directions reaches, each once.
fn walk_all(moves: ValidMoves) -> (reached: Vec<(usize, usize)>)
    requires
        on_board(moves.origin()),
        moves.dirs().no_duplicates(),
        forall|i: int| 0 <= i < moves.dirs().len() ==> unit_dir(#[trigger] moves.dirs()[i]),
    ensures
        forall|to: (usize, usize)|
            reached@.contains(to) <==> exists|i: int|
                0 <= i < moves.dirs().len() && slide_dest(
                    moves.board(),
                    moves.side(),
                    moves.origin(),
                    #[trigger] moves.dirs()[i],
                    sq(to),
                ),
        reached@.no_duplicates(),
{
    let reached = moves.into_iter().collect();
    proof {
        lemma_walks(moves.board(), moves.side(), moves.origin(), moves.dirs());
        lemma_squares(reached@);
    }
    reached
}

impl Figure {
    /// The squares this piece may move to from `pos`: those the movement rule
    /// of its kind allows on the given board, each once. Whether a move would
    /// leave the mover's own king attacked plays no part.
    pub fn valid_moves(&self, pos: (usize, usize), fields: &[[Field; 8]; 8]) -> (moves: Vec<
        (usize, usize),
    >)
        requires
            on_board(sq(pos)),
        ensures
            forall|to: (usize, usize)|
                moves@.contains(to) <==> destination(board_of(*fields), *self, sq(pos), sq(to)),
            moves@.no_duplicates(),
    {
        match self.figure {
            FigureType::Pawn => pawn_moves(pos, fields, self.team, self.first_move),
            FigureType::Bishop => {
                let moves = walk_all(bishop_moves(pos, fields, self.team));
                proof {
                    lemma_bishop_dirs(board_of(*fields), self.team, sq(pos));
                }
                moves
            },
            FigureType::Rook => {
                let moves = walk_all(rook_moves(pos, fields, self.team));
                proof {
                    lemma_rook_dirs(board_of(*fields), self.team, sq(pos));
                }
                moves
            },
            FigureType::Queen => {
                let mut moves = walk_all(bishop_moves(pos, fields, self.team));
                let mut straight = walk_all(rook_moves(pos, fields, self.team));
                proof {
                    broadcast use vstd::seq_lib::lemma_seq_concat_contains_all_elements;

                    lemma_bishop_dirs(board_of(*fields), self.team, sq(pos));
                    lemma_rook_dirs(board_of(*fields), self.team, sq(pos));
                    assert forall|i: int, j: int|
                        0 <= i < moves@.len() && 0 <= j < straight@.len() implies moves@[i]
                        != straight@[j] by {
                        assert(moves@.contains(moves@[i]));
                        assert(straight@.contains(straight@[j]));
                    }
                    vstd::seq_lib::lemma_no_dup_in_concat(moves@, straight@);
                }
                moves.append(&mut straight);
                moves
            },
            FigureType::King => {
                let offsets: [(i16, i16); 8] = [
                    (1, 0),
                    (1, -1),
                    (1, 1),
                    (0, 1),
                    (-1, 0),
                    (-1, 1),
                    (-1, -1),
                    (0, -1),
                ];
                let moves = jump_moves(pos, fields, self.team, &offsets);
                proof {
                    assert forall|to: (usize, usize)|
                        moves@.contains(to) <==> king_dest(
                            board_of(*fields),
                            self.team,
                            sq(pos),
                            sq(to),
                        ) by {
                        lemma_king_offsets(offsets@, sq(pos), sq(to));
                    }
                }
                moves
            },
            FigureType::Knight => {
                let offsets: [(i16, i16); 8] = [
                    (2, 1),
                    (2, -1),
                    (-2, 1),
                    (-2, -1),
                    (-1, -2),
                    (-1, 2),
                    (1, 2),
                    (1, -2),
                ];
                let moves = jump_moves(pos, fields, self.team, &offsets);
                proof {
                    assert forall|to: (usize, usize)|
                        moves@.contains(to) <==> knight_dest(
                            board_of(*fields),
                            self.team,
                            sq(pos),
                            sq(to),
                        ) by {
                        lemma_knight_offsets(offsets@, sq(pos), sq(to));
                    }
                }
                moves
            },
        }
    }
}

/// The square reached from `from` by the offset `by`.
pub open spec fn shifted(from: (int, int), by: (i16, i16)) -> (int, int) {
    (from.0 + by.0, from.1 + by.1)
}

/// `to` lies at one of the first `n` offsets from `from`.
pub open spec fn at_offset(
    offsets: Seq<(i16, i16)>,
    n: int,
    from: (int, int),
    to: (int, int),
) -> bool {
    exists|i: int| 0 <= i < n && to == shifted(from, #[trigger] offsets[i])
}

/// The squares at the given offsets from `pos` on which a piece of `team`
/// may land, each once.
fn jump_moves(
    pos: (usize, usize),
    fields: &[[Field; 8]; 8],
    team: Team,
    offsets: &[(i16, i16); 8],
) -> (moves: Vec<(usize, usize)>)
    requires
        on_board(sq(pos)),
        offsets@.no_duplicates(),
        forall|i: int|
            0 <= i < 8 ==> -2 <= (#[trigger] offsets[i]).0 <= 2 && -2 <= offsets[i].1 <= 2,
    ensures
        forall|to: (usize, usize)|
            moves@.contains(to) <==> landable(board_of(*fields), team, sq(to)) && at_offset(
                offsets@,
                8,
                sq(pos),
                sq(to),
            ),
        moves@.no_duplicates(),
{
    broadcast use vstd::seq_lib::lemma_seq_empty_contains_nothing;

    let mut moves: Vec<(usize, usize)> = Vec::new();
    let mut i: usize = 0;
    while i < 8
        invariant
            0 <= i <= 8,
            on_board(sq(pos)),
            offsets@.no_duplicates(),
            forall|i: int|
                0 <= i < 8 ==> -2 <= (#[trigger] offsets[i]).0 <= 2 && -2 <= offsets[i].1 <= 2,
            forall|to: (usize, usize)|
                moves@.contains(to) <==> landable(board_of(*fields), team, sq(to)) && at_offset(
                    offsets@,
                    i as int,
                    sq(pos),
                    sq(to),
                ),
            moves@.no_duplicates(),
        decreases 8 - i,
    {
        broadcast use vstd::seq_lib::lemma_seq_contains_after_push;

        let by: (i16, i16) = offsets[i];
        let target: (i16, i16) = (pos.0 as i16 + by.0, pos.1 as i16 + by.1);
        let ghost gathered = moves@;
        let ghost here = shifted(sq(pos), offsets@[i as int]);
        if let Some(mv) = is_move_valid(target, fields, team) {
            proof {
                if gathered.contains(mv) {
                    let j = choose|j: int|
                        0 <= j < i && sq(mv) == shifted(sq(pos), #[trigger] offsets@[j]);
                    assert(offsets@[j] == offsets@[i as int]);
                }
                lemma_push_no_duplicates(gathered, mv);
            }
            moves.push(mv);
        }
        proof {
            assert forall|to: (usize, usize)|
                moves@.contains(to) <==> landable(board_of(*fields), team, sq(to)) && at_offset(
                    offsets@,
                    i + 1,
                    sq(pos),
                    sq(to),
                ) by {
                if at_offset(offsets@, i + 1, sq(pos), sq(to)) {
                    let j = choose|j: int|
                        0 <= j < i + 1 && sq(to) == shifted(sq(pos), #[trigger] offsets@[j]);
                    if j < i {
                        assert(at_offset(offsets@, i as int, sq(pos), sq(to)));
                    }
                }
                if at_offset(offsets@, i as int, sq(pos), sq(to)) {
                    let j = choose|j: int|
                        0 <= j < i && sq(to) == shifted(sq(pos), #[trigger] offsets@[j]);
                    assert(at_offset(offsets@, i + 1, sq(pos), sq(to)));
                }
                if sq(to) == here {
                    assert(at_offset(offsets@, i + 1, sq(pos), sq(to)));
                }
            }
        }
        i += 1;
    }
    moves
}

/// The eight king offsets lead to exactly the squares one king step away.
proof fn lemma_king_offsets(offsets: Seq<(i16, i16)>, from: (int, int), to: (int, int))
    requires
        offsets =~= seq![
            (1i16, 0i16),
            (1i16, -1i16),
            (1i16, 1i16),
            (0i16, 1i16),
            (-1i16, 0i16),
            (-1i16, 1i16),
            (-1i16, -1i16),
            (0i16, -1i16),
        ],
    ensures
        at_offset(offsets, 8, from, to) <==> dist(from, to) == 1,
{
    if dist(from, to) == 1 {
        let by = ((to.0 - from.0) as i16, (to.1 - from.1) as i16);
        let i: int = if by == (1i16, 0i16) {
            0
        } else if by == (1i16, -1i16) {
            1
        } else if by == (1i16, 1i16) {
            2
        } else if by == (0i16, 1i16) {
            3
        } else if by == (-1i16, 0i16) {
            4
        } else if by == (-1i16, 1i16) {
            5
        } else if by == (-1i16, -1i16) {
            6
        } else {
            7
        };
        assert(to == shifted(from, offsets[i]));
    }
}

/// The eight knight offsets lead to exactly the squares one knight's jump
/// away.
proof fn lemma_knight_offsets(offsets: Seq<(i16, i16)>, from: (int, int), to: (int, int))
    requires
        offsets =~= seq![
            (2i16, 1i16),
            (2i16, -1i16),
            (-2i16, 1i16),
            (-2i16, -1i16),
            (-1i16, -2i16),
            (-1i16, 2i16),
            (1i16, 2i16),
            (1i16, -2i16),
        ],
    ensures
        at_offset(offsets, 8, from, to) <==> knight_jump(from, to),
{
    if knight_jump(from, to) {
        let by = ((to.0 - from.0) as i16, (to.1 - from.1) as i16);
        let i: int = if by == (2i16, 1i16) {
            0
        } else if by == (2i16, -1i16) {
            1
        } else if by == (-2i16, 1i16) {
            2
        } else if by == (-2i16, -1i16) {
            3
        } else if by == (-1i16, -2i16) {
            4
        } else if by == (-1i16, 2i16) {
            5
        } else if by == (1i16, 2i16) {
            6
        } else {
            7
        };
        assert(to == shifted(from, offsets[i]));
    }
}

/// Sliding in one of the four diagonal directions is the bishop's rule.
proof fn lemma_bishop_dirs(b: Board, team: Team, from: (int, int))
    ensures
        bishop_dirs().no_duplicates(),
        forall|i: int| 0 <= i < bishop_dirs().len() ==> unit_dir(#[trigger] bishop_dirs()[i]),
        forall|to: (int, int)|
            bishop_dest(b, team, from, to) <==> exists|i: int|
                0 <= i < bishop_dirs().len() && slide_dest(
                    b,
                    team,
                    from,
                    #[trigger] bishop_dirs()[i],
                    to,
                ),
{
    let d = bishop_dirs();
    assert(d[0] == (1int, 1int) && d[1] == (-1int, -1int) && d[2] == (-1int, 1int) && d[3] == (
        1int,
        -1int,
    ));
}

/// Sliding in one of the four straight directions is the rook's rule.
proof fn lemma_rook_dirs(b: Board, team: Team, from: (int, int))
    ensures
        rook_dirs().no_duplicates(),
        forall|i: int| 0 <= i < rook_dirs().len() ==> unit_dir(#[trigger] rook_dirs()[i]),
        forall|to: (int, int)|
            rook_dest(b, team, from, to) <==> exists|i: int|
                0 <= i < rook_dirs().len() && slide_dest(
                    b,
                    team,
                    from,
                    #[trigger] rook_dirs()[i],
                    to,
                ),
{
    let d = rook_dirs();
    assert(d[0] == (0int, 1int) && d[1] == (0int, -1int) && d[2] == (1int, 0int) && d[3] == (
        -1int,
        0int,
    ));
}

} // verus!
