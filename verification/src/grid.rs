//! Storage of one generation.

use vstd::prelude::*;
use crate::trusted::gen_range_inclusive;
use crate::rules::{
    is_border, is_empty, is_world, lemma_with_cell_is_world, with_cell, ALIVE, DEAD,
};

verus! {

/// One generation of cells: a square of `size + 1` cells on a side, whose
/// outermost ring is dead.
pub struct Grid {
    cells: Vec<Vec<u8>>,
    size: usize,
}

impl View for Grid {
    type V = Seq<Seq<u8>>;

    /// The cells as a matrix, row by row.
    closed spec fn view(&self) -> Seq<Seq<u8>> {
        Seq::new(self.cells@.len(), |i: int| self.cells@[i]@)
    }
}

impl Grid {
    /// The largest index of a row or a column.
    pub closed spec fn spec_size(&self) -> usize {
        self.size
    }

    /// The cells form a world of the grid's size.
    pub open spec fn well_formed(&self) -> bool {
        is_world(self@, self.spec_size() as int)
    }

    /// The largest index of a row or a column.
    #[verifier::when_used_as_spec(spec_size)]
    pub fn size(&self) -> (n: usize)
        ensures
            n == self.spec_size(),
    {
        self.size
    }

    /// A grid of the given size with every cell dead.
    pub fn new(size: usize) -> (g: Grid)
        requires
            2 <= size < usize::MAX,
        ensures
            g.well_formed(),
            g.spec_size() == size,
            is_empty(g@, size as int),
    {
        let side: usize = size + 1;
        let mut cells: Vec<Vec<u8>> = Vec::new();
        let mut i: usize = 0;
        while i < side
            invariant
                side == size + 1,
                i <= side,
                cells@.len() == i,
                forall|r: int| 0 <= r < i ==> (#[trigger] cells@[r])@.len() == side,
                forall|r: int, c: int| 0 <= r < i && 0 <= c < side ==> #[trigger] cells@[r]@[c] == DEAD,
            decreases side - i,
        {
            let mut row: Vec<u8> = Vec::new();
            let mut j: usize = 0;
            while j < side
                invariant
                    j <= side,
                    row@.len() == j,
                    forall|c: int| 0 <= c < j ==> #[trigger] row@[c] == DEAD,
                decreases side - j,
            {
                row.push(DEAD);
                j += 1;
            }
            cells.push(row);
            i += 1;
        }
        let g = Grid { cells, size };
        assert(g.well_formed());
        g
    }

    /// Gives every interior cell a state drawn by chance, dead or alive, each
    /// through `set`. The frame stays dead.
    ///
    /// Which state a cell gets is not known before the call: every world of
    /// the grid's size is a possible outcome, the one before the call
    /// included, so the contract says that the result is such a world and
    /// no more.
    pub fn randomize_interior(&mut self)
        requires
            old(self).well_formed(),
        ensures
            final(self).well_formed(),
            final(self).spec_size() == old(self).spec_size(),
    {
        let size = self.size;
        let mut rng = rand::thread_rng();
        let mut i: usize = 1;
        while i < size
            invariant
                1 <= i,
                self.well_formed(),
                self.spec_size() == size,
            decreases size - i,
        {
            let mut j: usize = 1;
            while j < size
                invariant
                    1 <= i < size,
                    1 <= j,
                    self.well_formed(),
                    self.spec_size() == size,
                decreases size - j,
            {
                let state = gen_range_inclusive(&mut rng, DEAD, ALIVE);
                self.set(i, j, state);
                j += 1;
            }
            i += 1;
        }
    }

    /// The state of cell `(i, j)`.
    pub fn get(&self, i: usize, j: usize) -> (state: u8)
        requires
            self.well_formed(),
            i <= self.spec_size(),
            j <= self.spec_size(),
        ensures
            state == self@[i as int][j as int],
    {
        assert(self@[i as int].len() == self.size + 1);
        self.cells[i][j]
    }

    /// Gives cell `(i, j)` the given state. A cell of the frame can only be
    /// given the state it always has.
    pub fn set(&mut self, i: usize, j: usize, state: u8)
        requires
            old(self).well_formed(),
            i <= old(self).spec_size(),
            j <= old(self).spec_size(),
            state == DEAD || state == ALIVE,
            is_border(old(self).spec_size() as int, i as int, j as int) ==> state == DEAD,
        ensures
            final(self).well_formed(),
            final(self).spec_size() == old(self).spec_size(),
            final(self)@ == with_cell(old(self)@, i as int, j as int, state),
    {
        assert(self@[i as int].len() == self.size + 1);
        self.cells[i][j] = state;
        proof {
            assert(self@ =~= with_cell(old(self)@, i as int, j as int, state));
            lemma_with_cell_is_world(old(self)@, self.size as int, i as int, j as int, state);
        }
    }
}

impl Clone for Grid {
    /// A grid of its own with the same cells.
    fn clone(&self) -> (g: Grid)
        ensures
            g@ == self@,
            g.spec_size() == self.spec_size(),
    {
        let cells = self.cells.clone();
        let g = Grid { cells, size: self.size };
        assert(g@ =~= self@);
        g
    }
}

} // verus!
