use crate::chess::{Chess, State};
use crate::error::ChessError;
use crate::field::{on_board, same_coordinates, set_figure, sq};
use crate::figure::{Figure, FigureType};
use crate::model::{promotable, promoted, promotion_pending, GameView};
use std::ops::Not;
use vstd::prelude::*;

verus! {

/// The piece offered at the given place of the promotion menu: queen, rook,
/// bishop, knight, from the top.
pub fn promotion_choice(index: usize) -> (kind: Option<FigureType>)
    ensures
        kind == (if index == 0 {
            Some(FigureType::Queen)
        } else if index == 1 {
            Some(FigureType::Rook)
        } else if index == 2 {
            Some(FigureType::Bishop)
        } else if index == 3 {
            Some(FigureType::Knight)
        } else {
            None
        }),
{
    match index {
        0 => Some(FigureType::Queen),
        1 => Some(FigureType::Rook),
        2 => Some(FigureType::Bishop),
        3 => Some(FigureType::Knight),
        _ => None,
    }
}

impl Chess {
    /// Puts a piece of the given kind and of the side to move on `pos`, in
    /// place of what stood there. The piece counts as moved.
    pub fn promote_pawn_at(&mut self, pos: (usize, usize), figure: FigureType)
        requires
            on_board(sq(pos)),
        ensures
            final(self)@ == (GameView {
                board: old(self).board().insert(
                    sq(pos),
                    Figure { figure, team: old(self).player, first_move: false },
                ),
                ..old(self)@
            }),
            final(self).selection == old(self).selection,
            same_coordinates(old(self).fields, final(self).fields),
    {
        set_figure(
            &mut self.fields,
            pos,
            Some(Figure { figure, team: self.player, first_move: false }),
        );
    }

    /// Carries out the promotion chosen for the pawn on `to_promote`: the pawn
    /// becomes a piece of the chosen kind, the turn passes, and the game
    /// waits for a click again. The choice is refused, and nothing changes,
    /// unless the game waits for a promotion on that very square and the kind
    /// is one a pawn can become.
    pub fn handle_promote_selection(
        &mut self,
        to_promote: (usize, usize),
        figure: FigureType,
    ) -> (done: Result<(), ChessError>)
        ensures
            match done {
                Ok(_) => promotion_pending(old(self)@, sq(to_promote)) && promotable(figure)
                    && final(self)@ == promoted(old(self)@, sq(to_promote), figure)
                    && final(self).selection == old(self).selection && same_coordinates(
                    old(self).fields,
                    final(self).fields,
                ),
                Err(e) => *final(self) == *old(self) && e == (if !promotion_pending(
                    old(self)@,
                    sq(to_promote),
                ) {
                    ChessError::NotPromoting
                } else {
                    ChessError::InvalidPromotion
                }) && !(promotion_pending(old(self)@, sq(to_promote)) && promotable(figure)),
            },
    {
        let pending: bool = match self.state {
            State::Promote(pos) => pos.row == to_promote.0 && pos.col == to_promote.1
                && to_promote.0 < 8 && to_promote.1 < 8,
            State::Select => false,
        };
        if !pending {
            return Err(ChessError::NotPromoting);
        }
        match figure {
            FigureType::Pawn | FigureType::King => {
                return Err(ChessError::InvalidPromotion);
            },
            _ => {},
        }
        self.promote_pawn_at(to_promote, figure);

        self.player = self.player.not();
        self.state = State::Select;
        Ok(())
    }
}

} // verus!
