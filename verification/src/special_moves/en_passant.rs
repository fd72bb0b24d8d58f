use crate::chess::Chess;
use crate::field::{on_board, same_coordinates, set_figure, sq};
use crate::figure::{FigureType, Team};
use crate::model::{opposing_pawn, with_chance, without_passed, GameView};
use std::ops::Not;
use vstd::prelude::*;

verus! {

/// One registered chance: the pawn of `team` on (`row`, `col`) may capture
/// the pawn on `pawn` in passing.
#[derive(Debug, Clone, Copy)]
struct Chance {
    row: usize,
    col: usize,
    team: Team,
    pawn: (usize, usize),
}

/// The key under which a chance is registered: the capturing pawn's square
/// and side.
pub open spec fn key_of(key: (usize, usize, Team)) -> (int, int, Team) {
    (key.0 as int, key.1 as int, key.2)
}

/// The mapping that a list of chances stands for, a later entry replacing an
/// earlier one under the same key.
spec fn mapping(chances: Seq<Chance>) -> Map<(int, int, Team), (int, int)>
    decreases chances.len(),
{
    if chances.len() == 0 {
        Map::empty()
    } else {
        let last = chances.last();
        mapping(chances.drop_last()).insert(
            (last.row as int, last.col as int, last.team),
            sq(last.pawn),
        )
    }
}

/// The chances to capture in passing: a mapping from the capturing pawn's
/// square and side to the square of the pawn that has just advanced two
/// squares.
#[derive(Debug)]
pub struct EnPassantRegistry {
    chances: Vec<Chance>,
}

impl View for EnPassantRegistry {
    type V = Map<(int, int, Team), (int, int)>;

    closed spec fn view(&self) -> Map<(int, int, Team), (int, int)> {
        mapping(self.chances@)
    }
}

impl EnPassantRegistry {
    /// A registry without entries.
    pub fn new() -> (registry: EnPassantRegistry)
        ensures
            registry@ == Map::<(int, int, Team), (int, int)>::empty(),
    {
        EnPassantRegistry { chances: Vec::new() }
    }

    /// Registers `pawn` under `key`, replacing what stood there.
    pub fn insert(&mut self, key: (usize, usize, Team), pawn: (usize, usize))
        ensures
            final(self)@ == old(self)@.insert(key_of(key), sq(pawn)),
    {
        self.chances.push(Chance { row: key.0, col: key.1, team: key.2, pawn });
        proof {
            assert(self.chances@.drop_last() == old(self).chances@);
        }
    }

    /// The pawn registered under `key`, if any.
    pub fn get(&self, key: (usize, usize, Team)) -> (pawn: Option<(usize, usize)>)
        ensures
            pawn is Some <==> self@.contains_key(key_of(key)),
            pawn is Some ==> self@[key_of(key)] == sq(pawn->Some_0),
    {
        let mut i: usize = self.chances.len();
        proof {
            assert(self.chances@.take(i as int) == self.chances@);
        }
        while i > 0
            invariant
                i <= self.chances.len(),
                mapping(self.chances@.take(i as int)).contains_key(key_of(key))
                    <==> self@.contains_key(key_of(key)),
                self@.contains_key(key_of(key)) ==> mapping(self.chances@.take(i as int))[key_of(
                    key,
                )] == self@[key_of(key)],
            decreases i,
        {
            proof {
                assert(self.chances@.take(i as int).drop_last() == self.chances@.take(i - 1));
            }
            i -= 1;
            let chance = self.chances[i];
            if chance.row == key.0 && chance.col == key.1 && chance.team == key.2 {
                return Some(chance.pawn);
            }
        }
        None
    }

    /// Forgets every entry.
    pub fn clear(&mut self)
        ensures
            final(self)@ == Map::<(int, int, Team), (int, int)>::empty(),
    {
        self.chances.clear();
    }
}

impl Chess {
    /// Whether a pawn that opposes `mover_team` stands on `pos`, so that it
    /// may capture in passing a pawn of `mover_team` that has just advanced
    /// two squares to the square beside it.
    pub fn check_en_passant(&self, mover_team: Team, pos: (usize, usize)) -> (found: bool)
        requires
            on_board(sq(pos)),
        ensures
            found == opposing_pawn(self.board(), mover_team, sq(pos)),
    {
        let Some(figure) = self.field(pos).figure else {
            return false;
        };
        figure.team != mover_team && figure.figure == FigureType::Pawn
    }

    /// Registers, if a pawn that opposes `mover_team` stands on `check_pos`,
    /// its chance to capture the pawn on `moved_pawn_pos` in passing.
    pub fn add_to_en_passant_if_checked(
        &mut self,
        mover_team: Team,
        check_pos: (usize, usize),
        moved_pawn_pos: (usize, usize),
    )
        requires
            on_board(sq(check_pos)),
        ensures
            final(self)@ == (GameView {
                en_passants: with_chance(
                    old(self)@.en_passants,
                    old(self).board(),
                    mover_team,
                    sq(check_pos),
                    sq(moved_pawn_pos),
                ),
                ..old(self)@
            }),
            final(self).fields == old(self).fields,
            final(self).selection == old(self).selection,
    {
        if self.check_en_passant(mover_team, check_pos) {
            self.en_passants.insert((check_pos.0, check_pos.1, mover_team.not()), moved_pawn_pos);
        }
    }

    /// Takes the pawn captured in passing off the board, if the piece of
    /// `mover_team` that went from `origin` to `moved_to` had a registered
    /// chance to capture the pawn on the square behind `moved_to`.
    pub fn remove_if_en_passant_pawn(
        &mut self,
        mover_team: Team,
        origin: (usize, usize),
        moved_to: (usize, usize),
    )
        ensures
            final(self)@ == (GameView {
                board: without_passed(
                    old(self).board(),
                    old(self)@.en_passants,
                    mover_team,
                    sq(origin),
                    sq(moved_to),
                ),
                ..old(self)@
            }),
            final(self).selection == old(self).selection,
            same_coordinates(old(self).fields, final(self).fields),
    {
        let Some(en_passant_pawn) = self.en_passants.get((origin.0, origin.1, mover_team)) else {
            return ;
        };
        if en_passant_pawn.0 >= 8 || en_passant_pawn.1 >= 8 {
            return ;
        }
        let behind_row: usize = match mover_team {
            Team::White => {
                if moved_to.0 >= 7 {
                    return ;
                }
                moved_to.0 + 1
            },
            Team::Black => {
                if moved_to.0 == 0 {
                    return ;
                }
                moved_to.0 - 1
            },
        };
        if en_passant_pawn.0 == behind_row && en_passant_pawn.1 == moved_to.1 {
            set_figure(&mut self.fields, en_passant_pawn, None);
        }
    }

    /// Lets every chance to capture in passing lapse.
    pub fn invalidate_en_passants(&mut self)
        ensures
            final(self)@ == (GameView {
                en_passants: Map::<(int, int, Team), (int, int)>::empty(),
                ..old(self)@
            }),
            final(self).fields == old(self).fields,
            final(self).selection == old(self).selection,
    {
        self.en_passants.clear();
    }
}

} // verus!
