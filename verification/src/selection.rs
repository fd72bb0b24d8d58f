use crate::field::sq;
use vstd::prelude::*;

verus! {

/// The selected square, if any, and the destinations worked out for the
/// piece standing on it.
#[derive(Debug)]
pub struct Selection {
    pub selected_field: Option<(usize, usize)>,
    pub moves: Vec<(usize, usize)>,
}

impl Default for Selection {
    fn default() -> (s: Selection)
        ensures
            s.selected_field is None,
            s.moves@ == Seq::<(usize, usize)>::empty(),
    {
        Selection { selected_field: None, moves: Vec::new() }
    }
}

impl Selection {
    /// The cached destinations as a set of squares.
    pub open spec fn destinations(&self) -> Set<(int, int)> {
        Set::new(|s: (int, int)| exists|m: (usize, usize)| self.moves@.contains(m) && sq(m) == s)
    }

    /// Drops the selection and the destinations cached for it.
    pub fn unselect_field(&mut self)
        ensures
            final(self).selected_field is None,
            final(self).moves@ == Seq::<(usize, usize)>::empty(),
            final(self).destinations() == Set::<(int, int)>::empty(),
    {
        self.selected_field = None;
        self.moves.clear();
        proof {
            assert(self.destinations() =~= Set::<(int, int)>::empty());
        }
    }
}

} // verus!
