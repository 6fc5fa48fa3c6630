//! A single square of the minefield.

use vstd::prelude::*;

verus! {

/// One cell of the grid.
///
/// `mine` is fixed at construction and `neighbours` is written exactly once
/// while the field is initialised; after that only the two player-driven
/// flags change.  `revealed` is monotone: it moves from `false` to `true`
/// and never back.  `flagged` may be toggled freely.
#[derive(Clone, Copy)]
pub struct Cell {
    mine: bool,
    neighbours: usize,
    revealed: bool,
    flagged: bool,
}

impl Cell {
    /// Whether the cell holds a mine.
    pub closed spec fn spec_is_mine(&self) -> bool {
        self.mine
    }

    /// The recorded number of mines in the cell's Moore neighbourhood.
    pub closed spec fn spec_neighbours(&self) -> usize {
        self.neighbours
    }

    /// Whether the cell has been revealed.
    pub closed spec fn spec_is_revealed(&self) -> bool {
        self.revealed
    }

    /// Whether the player has planted a flag on the cell.
    pub closed spec fn spec_is_flagged(&self) -> bool {
        self.flagged
    }

    /// A fresh, hidden, unflagged cell without a mine.
    pub fn new() -> (c: Cell)
        ensures
            !c.spec_is_mine(),
            c.spec_neighbours() == 0,
            !c.spec_is_revealed(),
            !c.spec_is_flagged(),
    {
        Cell { mine: false, neighbours: 0, revealed: false, flagged: false }
    }

    /// A fresh, hidden, unflagged cell holding a mine.
    pub fn new_mine() -> (c: Cell)
        ensures
            c.spec_is_mine(),
            c.spec_neighbours() == 0,
            !c.spec_is_revealed(),
            !c.spec_is_flagged(),
    {
        Cell { mine: true, neighbours: 0, revealed: false, flagged: false }
    }

    /// Reveals the cell.  One way: a revealed cell never becomes hidden
    /// again.  The caller is responsible for the flag-blocks-reveal rule.
    pub fn uncover(&mut self)
        ensures
            final(self).spec_is_revealed(),
            final(self).spec_is_mine() == old(self).spec_is_mine(),
            final(self).spec_neighbours() == old(self).spec_neighbours(),
            final(self).spec_is_flagged() == old(self).spec_is_flagged(),
    {
        self.revealed = true
    }

    /// Returns `true` if the cell holds a mine.
    #[verifier::when_used_as_spec(spec_is_mine)]
    pub fn is_mine(&self) -> (r: bool)
        ensures
            r == self.spec_is_mine(),
    {
        self.mine
    }

    /// Returns the recorded neighbouring-mine count.
    #[verifier::when_used_as_spec(spec_neighbours)]
    pub fn neighbours(&self) -> (r: usize)
        ensures
            r == self.spec_neighbours(),
    {
        self.neighbours
    }

    /// Returns `true` if the cell has been revealed.
    #[verifier::when_used_as_spec(spec_is_revealed)]
    pub fn is_revealed(&self) -> (r: bool)
        ensures
            r == self.spec_is_revealed(),
    {
        self.revealed
    }

    /// Returns `true` if the cell has been flagged.
    #[verifier::when_used_as_spec(spec_is_flagged)]
    pub fn is_flagged(&self) -> (r: bool)
        ensures
            r == self.spec_is_flagged(),
    {
        self.flagged
    }

    /// Flips the `flagged` state of the cell.
    pub fn toggle_flagged(&mut self)
        ensures
            final(self).spec_is_flagged() == !old(self).spec_is_flagged(),
            final(self).spec_is_mine() == old(self).spec_is_mine(),
            final(self).spec_neighbours() == old(self).spec_neighbours(),
            final(self).spec_is_revealed() == old(self).spec_is_revealed(),
    {
        self.flagged = !self.flagged
    }

    /// Records the neighbouring-mine count, during field initialisation.
    pub(crate) fn set_neighbours(&mut self, n: usize)
        ensures
            final(self).spec_neighbours() == n,
            final(self).spec_is_mine() == old(self).spec_is_mine(),
            final(self).spec_is_revealed() == old(self).spec_is_revealed(),
            final(self).spec_is_flagged() == old(self).spec_is_flagged(),
    {
        self.neighbours = n
    }
}

} // verus!
