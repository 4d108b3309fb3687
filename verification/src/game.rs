//! The simulation: one grid that is replaced, generation after generation,
//! by the one that the rule derives from it.

use vstd::prelude::*;
use crate::grid::Grid;
use crate::rules::{
    is_interior, live_neighbors, next_cell, next_generation, next_state, ALIVE, DEAD,
};

verus! {

/// The text that stands for one cell on the screen.
pub open spec fn glyph(state: u8) -> Seq<char> {
    if state == ALIVE {
        seq!['O', ' ']
    } else {
        seq![' ']
    }
}

/// The glyphs of the cells of `row` in columns `1..until`, left to right.
pub open spec fn row_text(row: Seq<u8>, until: int) -> Seq<char>
    decreases until,
{
    if until <= 1 {
        Seq::empty()
    } else {
        row_text(row, until - 1) + glyph(row[until - 1])
    }
}

/// The text of the interior cells of rows `1..until` of `w`, top to bottom,
/// a line break after each row.
pub open spec fn rows_text(w: Seq<Seq<u8>>, until: int) -> Seq<char>
    decreases until,
{
    if until <= 1 {
        Seq::empty()
    } else {
        rows_text(w, until - 1) + row_text(w[until - 1], w.len() - 1) + seq!['\n']
    }
}

/// The text of a whole frame: every interior row of `w`.
pub open spec fn frame_text(w: Seq<Seq<u8>>) -> Seq<char> {
    rows_text(w, w.len() - 1)
}

/// `w` in the middle of a step that goes through the cells row by row:
/// the cells before `(row, col)` hold their next state, the others still
/// hold their state in `w`.
pub open spec fn stepped_until(w: Seq<Seq<u8>>, row: int, col: int) -> Seq<Seq<u8>> {
    Seq::new(
        w.len(),
        |i: int|
            Seq::new(
                w[i].len(),
                |j: int|
                    if i < row || (i == row && j < col) {
                        next_cell(w, i, j)
                    } else {
                        w[i][j]
                    },
            ),
    )
}

/// Conway's Game of Life on a bounded grid.
pub struct ConwaysGameOfLife {
    world: Grid,
    world_size: usize,
}

impl View for ConwaysGameOfLife {
    type V = Seq<Seq<u8>>;

    /// The cells of the current generation as a matrix, row by row.
    open spec fn view(&self) -> Seq<Seq<u8>> {
        self.spec_grid()@
    }
}

impl ConwaysGameOfLife {
    /// The grid of the current generation.
    pub closed spec fn spec_grid(&self) -> Grid {
        self.world
    }

    /// The largest index of a row or a column of the grid.
    pub closed spec fn spec_size(&self) -> usize {
        self.world_size
    }

    /// The current generation is a world of the game's size.
    pub open spec fn well_formed(&self) -> bool {
        &&& self.spec_grid().well_formed()
        &&& self.spec_grid().spec_size() == self.spec_size()
    }

    /// A game on a grid of the given size whose interior is filled by
    /// chance.
    pub fn new(grid_size: usize) -> (game: ConwaysGameOfLife)
        requires
            2 <= grid_size < usize::MAX,
        ensures
            game.well_formed(),
            game.spec_size() == grid_size,
    {
        let mut grid = Grid::new(grid_size);
        grid.randomize_interior();
        ConwaysGameOfLife { world: grid, world_size: grid_size }
    }

    /// A game that starts from the given generation.
    pub fn from_grid(grid: Grid) -> (game: ConwaysGameOfLife)
        requires
            grid.well_formed(),
        ensures
            game.well_formed(),
            game.spec_size() == grid.spec_size(),
            game@ == grid@,
    {
        let world_size = grid.size();
        ConwaysGameOfLife { world: grid, world_size }
    }

    /// The largest index of a row or a column of the grid.
    #[verifier::when_used_as_spec(spec_size)]
    pub fn size(&self) -> (n: usize)
        ensures
            n == self.spec_size(),
    {
        self.world_size
    }

    /// The grid of the current generation.
    pub fn grid(&self) -> (g: &Grid)
        ensures
            *g == self.spec_grid(),
    {
        &self.world
    }

    /// The state that the interior cell `(i, j)` has in the next generation:
    /// the rule applied to its current state and to the number of its
    /// living neighbours.
    pub fn get_new_state(&self, i: usize, j: usize) -> (state: u8)
        requires
            self.well_formed(),
            is_interior(self.spec_size() as int, i as int, j as int),
        ensures
            state == next_state(self@[i as int][j as int], live_neighbors(self@, i as int, j as int)),
            state == next_cell(self@, i as int, j as int),
    {
        let mut neighbor_live_count: u8 = 0;
        neighbor_live_count += self.world.get(i, j - 1);
        neighbor_live_count += self.world.get(i, j + 1);
        neighbor_live_count += self.world.get(i + 1, j);
        neighbor_live_count += self.world.get(i - 1, j);
        neighbor_live_count += self.world.get(i + 1, j + 1);
        neighbor_live_count += self.world.get(i - 1, j + 1);
        neighbor_live_count += self.world.get(i + 1, j - 1);
        neighbor_live_count += self.world.get(i - 1, j - 1);

        let curr_state = self.world.get(i, j);

        if curr_state == ALIVE && neighbor_live_count < 2 {
            // underpopulation
            DEAD
        } else if curr_state == ALIVE && (neighbor_live_count == 2 || neighbor_live_count == 3) {
            // survival
            ALIVE
        } else if curr_state == ALIVE && neighbor_live_count > 3 {
            // overpopulation
            DEAD
        } else if curr_state == DEAD && neighbor_live_count == 3 {
            // reproduction
            ALIVE
        } else {
            DEAD
        }
    }

    /// Replaces the current generation by the next one. Every interior cell
    /// gets the state that the rule derives from the current generation;
    /// the frame is left as it is.
    pub fn step(&mut self)
        requires
            old(self).well_formed(),
        ensures
            final(self).well_formed(),
            final(self).spec_size() == old(self).spec_size(),
            final(self)@ == next_generation(old(self)@),
    {
        let size = self.world_size;
        let ghost w = self@;
        let mut next = self.world.clone();
        assert(next@ =~~= stepped_until(w, 1, 1));
        let mut row: usize = 1;
        while row < size
            invariant
                1 <= row,
                self.well_formed(),
                self.spec_size() == size,
                self@ == w,
                next.well_formed(),
                next.spec_size() == size,
                next@ == stepped_until(w, row as int, 1),
            decreases size - row,
        {
            let mut col: usize = 1;
            while col < size
                invariant
                    1 <= row < size,
                    1 <= col,
                    self.well_formed(),
                    self.spec_size() == size,
                    self@ == w,
                    next.well_formed(),
                    next.spec_size() == size,
                    next@ == stepped_until(w, row as int, col as int),
                decreases size - col,
            {
                let state = self.get_new_state(row, col);
                next.set(row, col, state);
                assert(next@ =~~= stepped_until(w, row as int, col + 1));
                col += 1;
            }
            assert(next@ =~~= stepped_until(w, row + 1, 1));
            row += 1;
        }
        assert(next@ =~~= next_generation(w));
        self.world = next;
    }

    /// The text of the current generation: for each interior row, from the
    /// top, the glyphs of its interior cells and a line break.
    pub fn render(&self) -> (frame: String)
        requires
            self.well_formed(),
        ensures
            frame@ == frame_text(self@),
    {
        let size = self.world_size;
        let mut frame = String::new();
        let mut row: usize = 1;
        while row < size
            invariant
                1 <= row,
                row <= size || row == 1,
                self.well_formed(),
                self.spec_size() == size,
                frame@ == rows_text(self@, row as int),
            decreases size - row,
        {
            let ghost before = frame@;
            let mut col: usize = 1;
            while col < size
                invariant
                    1 <= row < size,
                    1 <= col <= size,
                    self.well_formed(),
                    self.spec_size() == size,
                    frame@ == before + row_text(self@[row as int], col as int),
                decreases size - col,
            {
                if self.world.get(row, col) == ALIVE {
                    frame.push('O');
                    frame.push(' ');
                } else {
                    frame.push(' ');
                }
                assert(frame@ =~= before + row_text(self@[row as int], col + 1));
                col += 1;
            }
            frame.push('\n');
            assert(frame@ =~= rows_text(self@, row + 1));
            row += 1;
        }
        frame
    }
}

} // verus!
