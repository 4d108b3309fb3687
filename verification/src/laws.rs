//! What holds of every world, proved from the model alone.

use vstd::prelude::*;
use crate::rules::{
    generations, is_border, is_empty, is_interior, is_world, live_neighbors, next_cell,
    next_generation, with_cell, ALIVE, DEAD,
};

verus! {

/// The living cells of `w` are the four cells of the square whose upper
/// left corner is `(r, c)`.
pub open spec fn is_block(w: Seq<Seq<u8>>, size: int, r: int, c: int) -> bool {
    forall|i: int, j: int|
        0 <= i <= size && 0 <= j <= size ==> (#[trigger] w[i][j] == ALIVE <==> (r <= i <= r + 1
            && c <= j <= c + 1))
}

/// The living cells of `w` are the three cells of row `r` around column
/// `c`.
pub open spec fn is_horizontal_blinker(w: Seq<Seq<u8>>, size: int, r: int, c: int) -> bool {
    forall|i: int, j: int|
        0 <= i <= size && 0 <= j <= size ==> (#[trigger] w[i][j] == ALIVE <==> (i == r
            && c - 1 <= j <= c + 1))
}

/// The living cells of `w` are the three cells of column `c` around row
/// `r`.
pub open spec fn is_vertical_blinker(w: Seq<Seq<u8>>, size: int, r: int, c: int) -> bool {
    forall|i: int, j: int|
        0 <= i <= size && 0 <= j <= size ==> (#[trigger] w[i][j] == ALIVE <==> (j == c
            && r - 1 <= i <= r + 1))
}

/// The generation that follows a world is a world of the same size, so its
/// frame is dead again, and no cell of the frame has changed.
pub proof fn lemma_next_generation_is_world(w: Seq<Seq<u8>>, size: int)
    requires
        is_world(w, size),
    ensures
        is_world(next_generation(w), size),
        forall|i: int, j: int|
            is_border(size, i, j) ==> #[trigger] next_generation(w)[i][j] == w[i][j],
{
    let v = next_generation(w);
    assert forall|i: int| 0 <= i <= size implies (#[trigger] v[i]).len() == size + 1 by {
        assert(w[i].len() == size + 1);
    }
    assert forall|i: int, j: int| 0 <= i <= size && 0 <= j <= size implies {
        let x = #[trigger] v[i][j];
        x == DEAD || x == ALIVE
    } by {
        assert(w[i].len() == size + 1);
        assert(w[i][j] == DEAD || w[i][j] == ALIVE);
    }
    assert forall|i: int, j: int| is_border(size, i, j) implies #[trigger] v[i][j] == DEAD
        && v[i][j] == w[i][j] by {
        assert(w[i].len() == size + 1);
        assert(w[i][j] == DEAD);
    }
}

/// However many generations pass, a world stays a world of the same size
/// and every cell of its frame stays dead.
pub proof fn lemma_border_stays_dead(w: Seq<Seq<u8>>, size: int, n: nat)
    requires
        is_world(w, size),
    ensures
        is_world(generations(w, n), size),
        forall|i: int, j: int| is_border(size, i, j) ==> #[trigger] generations(w, n)[i][j] == DEAD,
    decreases n,
{
    if n > 0 {
        lemma_border_stays_dead(w, size, (n - 1) as nat);
        lemma_next_generation_is_world(generations(w, (n - 1) as nat), size);
    }
}

/// A living interior cell without a living neighbour is dead in the next
/// generation.
pub proof fn lemma_isolated_cell_dies(w: Seq<Seq<u8>>, size: int, i: int, j: int)
    requires
        is_world(w, size),
        is_interior(size, i, j),
        w[i][j] == ALIVE,
        live_neighbors(w, i, j) == 0,
    ensures
        next_generation(w)[i][j] == DEAD,
{
    assert(w[i].len() == size + 1);
}

/// A world without life stays as it is, however many generations pass.
pub proof fn lemma_empty_world_stays_empty(w: Seq<Seq<u8>>, size: int, n: nat)
    requires
        is_world(w, size),
        is_empty(w, size),
    ensures
        generations(w, n) == w,
    decreases n,
{
    if n > 0 {
        lemma_empty_world_stays_empty(w, size, (n - 1) as nat);
        let v = next_generation(w);
        assert forall|i: int| 0 <= i <= size implies #[trigger] v[i] =~= w[i] by {
            assert(w[i].len() == size + 1);
            assert forall|j: int| 0 <= j <= size implies v[i][j] == w[i][j] by {
                lemma_neighbors_in_range(w, size, i, j);
            }
        }
        assert(v =~= w);
    }
}

/// A world whose only life is a square of four cells in its interior is the
/// same in the next generation.
pub proof fn lemma_block_is_unchanged(w: Seq<Seq<u8>>, size: int, r: int, c: int)
    requires
        is_world(w, size),
        is_interior(size, r, c),
        is_interior(size, r + 1, c + 1),
        is_block(w, size, r, c),
    ensures
        next_generation(w) == w,
{
    let v = next_generation(w);
    assert forall|i: int| 0 <= i <= size implies #[trigger] v[i] =~= w[i] by {
        assert(w[i].len() == size + 1);
        assert forall|j: int| 0 <= j <= size implies v[i][j] == w[i][j] by {
            lemma_neighbors_in_range(w, size, i, j);
        }
    }
    assert(v =~= w);
}

/// A world whose only life is a square of four cells in its interior stays
/// as it is, however many generations pass.
pub proof fn lemma_block_is_still_life(w: Seq<Seq<u8>>, size: int, r: int, c: int, n: nat)
    requires
        is_world(w, size),
        is_interior(size, r, c),
        is_interior(size, r + 1, c + 1),
        is_block(w, size, r, c),
    ensures
        generations(w, n) == w,
    decreases n,
{
    if n > 0 {
        lemma_block_is_still_life(w, size, r, c, (n - 1) as nat);
        lemma_block_is_unchanged(w, size, r, c);
    }
}

/// A row of three living cells, alone in a world and with room above and
/// below, is a column of three living cells around the same centre one
/// generation later.
pub proof fn lemma_blinker_turns_vertical(w: Seq<Seq<u8>>, size: int, r: int, c: int)
    requires
        is_world(w, size),
        is_interior(size, r - 1, c - 1),
        is_interior(size, r + 1, c + 1),
        is_horizontal_blinker(w, size, r, c),
    ensures
        is_world(next_generation(w), size),
        is_vertical_blinker(next_generation(w), size, r, c),
{
    lemma_next_generation_is_world(w, size);
    let v = next_generation(w);
    assert forall|i: int, j: int| 0 <= i <= size && 0 <= j <= size implies (#[trigger] v[i][j]
        == ALIVE <==> (j == c && r - 1 <= i <= r + 1)) by {
        lemma_neighbors_in_range(w, size, i, j);
    }
}

/// A column of three living cells, alone in a world and with room to the
/// left and to the right, is a row of three living cells around the same
/// centre one generation later.
pub proof fn lemma_blinker_turns_horizontal(w: Seq<Seq<u8>>, size: int, r: int, c: int)
    requires
        is_world(w, size),
        is_interior(size, r - 1, c - 1),
        is_interior(size, r + 1, c + 1),
        is_vertical_blinker(w, size, r, c),
    ensures
        is_world(next_generation(w), size),
        is_horizontal_blinker(next_generation(w), size, r, c),
{
    lemma_next_generation_is_world(w, size);
    let v = next_generation(w);
    assert forall|i: int, j: int| 0 <= i <= size && 0 <= j <= size implies (#[trigger] v[i][j]
        == ALIVE <==> (i == r && c - 1 <= j <= c + 1)) by {
        lemma_neighbors_in_range(w, size, i, j);
    }
}

/// Two worlds of one size with the same living cells are the same world.
pub proof fn lemma_same_life_same_world(v: Seq<Seq<u8>>, w: Seq<Seq<u8>>, size: int)
    requires
        is_world(v, size),
        is_world(w, size),
        forall|i: int, j: int|
            0 <= i <= size && 0 <= j <= size ==> (#[trigger] v[i][j] == ALIVE <==> w[i][j] == ALIVE),
    ensures
        v == w,
{
    assert forall|i: int| 0 <= i <= size implies #[trigger] v[i] =~= w[i] by {
        assert(v[i].len() == size + 1);
        assert(w[i].len() == size + 1);
        assert forall|j: int| 0 <= j <= size implies v[i][j] == w[i][j] by {
            assert(v[i][j] == ALIVE <==> w[i][j] == ALIVE);
            assert(w[i][j] == DEAD || w[i][j] == ALIVE);
        }
    }
    assert(v =~= w);
}

/// The blinker has period two: a row of three living cells, alone in a
/// world and with room on all sides, turns into a column and, one
/// generation later, is the world it was.
pub proof fn lemma_blinker_oscillates(w: Seq<Seq<u8>>, size: int, r: int, c: int)
    requires
        is_world(w, size),
        is_interior(size, r - 1, c - 1),
        is_interior(size, r + 1, c + 1),
        is_horizontal_blinker(w, size, r, c),
    ensures
        is_vertical_blinker(generations(w, 1), size, r, c),
        generations(w, 2) == w,
{
    lemma_two_steps(w);
    let v = next_generation(w);
    lemma_blinker_turns_vertical(w, size, r, c);
    lemma_blinker_turns_horizontal(v, size, r, c);
    lemma_same_life_same_world(next_generation(v), w, size);
}

/// The second generation after a world is the generation that follows the
/// generation that follows it, and the first is the one that follows it.
pub proof fn lemma_two_steps(w: Seq<Seq<u8>>)
    ensures
        generations(w, 0) == w,
        generations(w, 1) == next_generation(w),
        generations(w, 2) == next_generation(next_generation(w)),
{
    reveal_with_fuel(generations, 3);
}

/// Generations add up: `n` generations after the `m`-th is the
/// generation `m + n`.
pub proof fn lemma_generations_add(w: Seq<Seq<u8>>, m: nat, n: nat)
    ensures
        generations(generations(w, m), n) == generations(w, m + n),
    decreases n,
{
    if n > 0 {
        lemma_generations_add(w, m, (n - 1) as nat);
    }
}

/// The next state of a cell depends on nothing but the cell and its eight
/// neighbours: two worlds of one size that agree on these nine cells give
/// the cell the same next state.
pub proof fn lemma_next_cell_is_local(v: Seq<Seq<u8>>, w: Seq<Seq<u8>>, i: int, j: int)
    requires
        v.len() == w.len(),
        forall|a: int, b: int|
            i - 1 <= a <= i + 1 && j - 1 <= b <= j + 1 ==> #[trigger] v[a][b] == w[a][b],
    ensures
        next_cell(v, i, j) == next_cell(w, i, j),
{
}

/// `w` after the cells at the first `k` places of `order` were given their
/// next state one after the other, each state derived from `w` itself.
pub open spec fn updated_in_order(
    w: Seq<Seq<u8>>,
    order: Seq<(int, int)>,
    k: nat,
) -> Seq<Seq<u8>>
    decreases k,
{
    if k == 0 {
        w
    } else {
        let (i, j) = order[k - 1];
        with_cell(updated_in_order(w, order, (k - 1) as nat), i, j, next_cell(w, i, j))
    }
}

/// The order in which a step visits the cells does not matter: when every
/// interior cell is given the state derived from the untouched generation,
/// in whatever order and however often, the result is the next generation.
pub proof fn lemma_update_order_is_irrelevant(
    w: Seq<Seq<u8>>,
    size: int,
    order: Seq<(int, int)>,
)
    requires
        is_world(w, size),
        forall|k: int|
            0 <= k < order.len() ==> is_interior(size, (#[trigger] order[k]).0, order[k].1),
        forall|i: int, j: int| is_interior(size, i, j) ==> order.contains((i, j)),
    ensures
        updated_in_order(w, order, order.len()) == next_generation(w),
{
    lemma_updated_in_order(w, size, order, order.len());
    let u = updated_in_order(w, order, order.len());
    let v = next_generation(w);
    assert forall|i: int| 0 <= i <= size implies #[trigger] u[i] =~= v[i] by {
        assert(w[i].len() == size + 1);
        assert forall|j: int| 0 <= j <= size implies u[i][j] == v[i][j] by {
            if is_interior(size, i, j) {
                assert(order.contains((i, j)));
                let k = choose|k: int| 0 <= k < order.len() && order[k] == (i, j);
                assert(order[k] == (i, j));
            }
        }
    }
    assert(u =~= v);
}

/// What cell `(i, j)` holds after the first `k` places of `order`: its next
/// state if it occurs among them, else its state in `w`.
spec fn expected_cell(w: Seq<Seq<u8>>, order: Seq<(int, int)>, k: int, i: int, j: int) -> u8 {
    if exists|p: int| 0 <= p < k && order[p] == (i, j) {
        next_cell(w, i, j)
    } else {
        w[i][j]
    }
}

/// After the first `k` places of `order` a cell that occurs among them holds
/// its next state, and every other cell holds the state it had.
proof fn lemma_updated_in_order(w: Seq<Seq<u8>>, size: int, order: Seq<(int, int)>, k: nat)
    requires
        is_world(w, size),
        k <= order.len(),
        forall|k: int|
            0 <= k < order.len() ==> is_interior(size, (#[trigger] order[k]).0, order[k].1),
    ensures
        updated_in_order(w, order, k).len() == size + 1,
        forall|i: int|
            0 <= i <= size ==> (#[trigger] updated_in_order(w, order, k)[i]).len() == size + 1,
        forall|i: int, j: int|
            0 <= i <= size && 0 <= j <= size ==> #[trigger] updated_in_order(w, order, k)[i][j]
                == expected_cell(w, order, k as int, i, j),
    decreases k,
{
    if k > 0 {
        let before = updated_in_order(w, order, (k - 1) as nat);
        let after = updated_in_order(w, order, k);
        lemma_updated_in_order(w, size, order, (k - 1) as nat);
        let (a, b) = order[k - 1];
        assert(is_interior(size, order[k - 1].0, order[k - 1].1));
        assert forall|i: int, j: int| 0 <= i <= size && 0 <= j <= size implies #[trigger] after[i][j]
            == expected_cell(w, order, k as int, i, j) by {
            assert(before[i].len() == size + 1);
            if (i, j) == (a, b) {
                assert(order[k - 1] == (i, j));
            } else if exists|p: int| 0 <= p < k - 1 && order[p] == (i, j) {
                let p = choose|p: int| 0 <= p < k - 1 && order[p] == (i, j);
                assert(0 <= p < k && order[p] == (i, j));
            } else {
                assert(after[i][j] == before[i][j]);
                if exists|p: int| 0 <= p < k && order[p] == (i, j) {
                    let p = choose|p: int| 0 <= p < k && order[p] == (i, j);
                    assert(p != k - 1);
                    assert(0 <= p < k - 1 && order[p] == (i, j));
                }
            }
        }
        assert forall|i: int| 0 <= i <= size implies (#[trigger] after[i]).len() == size + 1 by {
            assert(before[i].len() == size + 1);
        }
    } else {
        assert forall|i: int| 0 <= i <= size implies (#[trigger] w[i]).len() == size + 1 by {}
    }
}

/// Around an interior cell of a world all eight neighbours are cells of the
/// world.
proof fn lemma_neighbors_in_range(w: Seq<Seq<u8>>, size: int, i: int, j: int)
    requires
        is_world(w, size),
        0 <= i <= size,
        0 <= j <= size,
    ensures
        w[i].len() == size + 1,
        is_interior(size, i, j) ==> {
            &&& w[i - 1].len() == size + 1
            &&& w[i + 1].len() == size + 1
            &&& 0 <= live_neighbors(w, i, j) <= 8
        },
{
    assert(w[i].len() == size + 1);
    if is_interior(size, i, j) {
        assert(w[i - 1].len() == size + 1);
        assert(w[i + 1].len() == size + 1);
        assert(w[i - 1][j - 1] <= 1 && w[i - 1][j] <= 1 && w[i - 1][j + 1] <= 1);
        assert(w[i][j - 1] <= 1 && w[i][j + 1] <= 1);
        assert(w[i + 1][j - 1] <= 1 && w[i + 1][j] <= 1 && w[i + 1][j + 1] <= 1);
    }
}

} // verus!
