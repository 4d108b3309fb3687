//! The mathematical model of the automaton.
//!
//! A world is a square matrix of cell states, `size + 1` cells on a side,
//! indexed from `0` to `size`. The outermost ring of cells is a frame that
//! is always dead; the cells with both coordinates in `1..size` form the
//! interior, where life happens.

use vstd::prelude::*;

verus! {

/// State of a cell without life.
pub const DEAD: u8 = 0;

/// State of a cell with life.
pub const ALIVE: u8 = 1;

/// `(i, j)` lies in the interior of a world of the given size.
pub open spec fn is_interior(size: int, i: int, j: int) -> bool {
    1 <= i < size && 1 <= j < size
}

/// `(i, j)` lies on the frame of a world of the given size.
pub open spec fn is_border(size: int, i: int, j: int) -> bool {
    &&& 0 <= i <= size
    &&& 0 <= j <= size
    &&& (i == 0 || j == 0 || i == size || j == size)
}

/// `w` is a world of the given size: square, every cell dead or alive,
/// every cell of the frame dead.
pub open spec fn is_world(w: Seq<Seq<u8>>, size: int) -> bool {
    &&& w.len() == size + 1
    &&& forall|i: int| 0 <= i <= size ==> (#[trigger] w[i]).len() == size + 1
    &&& forall|i: int, j: int|
        0 <= i <= size && 0 <= j <= size ==> {
            let c = #[trigger] w[i][j];
            c == DEAD || c == ALIVE
        }
    &&& forall|i: int, j: int| is_border(size, i, j) ==> #[trigger] w[i][j] == DEAD
}

/// Every cell of `w` within the given size is dead.
pub open spec fn is_empty(w: Seq<Seq<u8>>, size: int) -> bool {
    forall|i: int, j: int| 0 <= i <= size && 0 <= j <= size ==> #[trigger] w[i][j] == DEAD
}

/// `w` with cell `(i, j)` given the state `state`.
pub open spec fn with_cell(w: Seq<Seq<u8>>, i: int, j: int, state: u8) -> Seq<Seq<u8>> {
    w.update(i, w[i].update(j, state))
}

/// Giving a cell of a world a state keeps it a world, as long as the frame
/// stays dead.
pub proof fn lemma_with_cell_is_world(w: Seq<Seq<u8>>, size: int, i: int, j: int, state: u8)
    requires
        is_world(w, size),
        0 <= i <= size,
        0 <= j <= size,
        state == DEAD || state == ALIVE,
        is_border(size, i, j) ==> state == DEAD,
    ensures
        is_world(with_cell(w, i, j, state), size),
{
    let v = with_cell(w, i, j, state);
    assert forall|r: int| 0 <= r <= size implies (#[trigger] v[r]).len() == size + 1 by {
        assert(w[r].len() == size + 1);
    }
    assert forall|r: int, c: int| 0 <= r <= size && 0 <= c <= size implies {
        let x = #[trigger] v[r][c];
        x == DEAD || x == ALIVE
    } by {
        assert(w[r].len() == size + 1);
        assert(w[r][c] == DEAD || w[r][c] == ALIVE);
    }
    assert forall|r: int, c: int| is_border(size, r, c) implies #[trigger] v[r][c] == DEAD by {
        assert(w[r].len() == size + 1);
        assert(w[r][c] == DEAD);
    }
}

/// Number of living cells among the eight cells around `(i, j)`.
pub open spec fn live_neighbors(w: Seq<Seq<u8>>, i: int, j: int) -> int {
    w[i - 1][j - 1] + w[i - 1][j] + w[i - 1][j + 1]
        + w[i][j - 1] + w[i][j + 1]
        + w[i + 1][j - 1] + w[i + 1][j] + w[i + 1][j + 1]
}

/// The transition rule: a cell is alive in the next generation exactly when
/// it has three living neighbours, or is alive and has two.
pub open spec fn next_state(curr: u8, neighbor_live_count: int) -> u8 {
    if neighbor_live_count == 3 || (curr == ALIVE && neighbor_live_count == 2) {
        ALIVE
    } else {
        DEAD
    }
}

/// State of cell `(i, j)` one generation after `w`: the rule applied to the
/// cell and its neighbours in `w` for an interior cell, the cell's state in
/// `w` for any other.
pub open spec fn next_cell(w: Seq<Seq<u8>>, i: int, j: int) -> u8 {
    if is_interior(w.len() - 1, i, j) {
        next_state(w[i][j], live_neighbors(w, i, j))
    } else {
        w[i][j]
    }
}

/// The generation that follows `w`.
pub open spec fn next_generation(w: Seq<Seq<u8>>) -> Seq<Seq<u8>> {
    Seq::new(w.len(), |i: int| Seq::new(w[i].len(), |j: int| next_cell(w, i, j)))
}

/// The generation `n` steps after `w`.
pub open spec fn generations(w: Seq<Seq<u8>>, n: nat) -> Seq<Seq<u8>>
    decreases n,
{
    if n == 0 {
        w
    } else {
        next_generation(generations(w, (n - 1) as nat))
    }
}

} // verus!
