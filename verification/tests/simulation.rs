use game_of_life::game::ConwaysGameOfLife;
use game_of_life::grid::Grid;
use game_of_life::rules::{ALIVE, DEAD};

/// The places around a cell in the order in which the tests fill them.
const AROUND: [(isize, isize); 8] =
    [(-1, -1), (-1, 0), (-1, 1), (0, -1), (0, 1), (1, -1), (1, 0), (1, 1)];

fn game_with(size: usize, living: &[(usize, usize)]) -> ConwaysGameOfLife {
    let mut grid = Grid::new(size);
    for &(i, j) in living {
        grid.set(i, j, ALIVE);
    }
    ConwaysGameOfLife::from_grid(grid)
}

fn cells(game: &ConwaysGameOfLife) -> Vec<Vec<u8>> {
    let size = game.size();
    let mut cells = Vec::new();
    for i in 0..=size {
        let mut row = Vec::new();
        for j in 0..=size {
            row.push(game.grid().get(i, j));
        }
        cells.push(row);
    }
    cells
}

fn living(game: &ConwaysGameOfLife) -> Vec<(usize, usize)> {
    let size = game.size();
    let mut found = Vec::new();
    for i in 0..=size {
        for j in 0..=size {
            if game.grid().get(i, j) == ALIVE {
                found.push((i, j));
            }
        }
    }
    found
}

/// The next generation, computed cell by cell from a matrix.
fn expected_next(cells: &Vec<Vec<u8>>) -> Vec<Vec<u8>> {
    let size = cells.len() - 1;
    let mut next = cells.clone();
    for i in 1..size {
        for j in 1..size {
            let mut count = 0;
            for (di, dj) in AROUND {
                let a = (i as isize + di) as usize;
                let b = (j as isize + dj) as usize;
                count += cells[a][b];
            }
            next[i][j] = if count == 3 || (cells[i][j] == 1 && count == 2) { 1 } else { 0 };
        }
    }
    next
}

/// A game of size 4 whose cell (2, 2) has the given state and the given
/// number of living neighbours.
fn neighbourhood(curr: u8, count: usize) -> ConwaysGameOfLife {
    let mut grid = Grid::new(4);
    grid.set(2, 2, curr);
    for &(di, dj) in AROUND.iter().take(count) {
        grid.set((2 + di) as usize, (2 + dj) as usize, ALIVE);
    }
    ConwaysGameOfLife::from_grid(grid)
}

#[test]
fn rule_for_every_state_and_count() {
    let when_alive = [0u8, 0, 1, 1, 0, 0, 0, 0, 0];
    let when_dead = [0u8, 0, 0, 1, 0, 0, 0, 0, 0];
    for count in 0..=8usize {
        assert_eq!(neighbourhood(ALIVE, count).get_new_state(2, 2), when_alive[count]);
        assert_eq!(neighbourhood(DEAD, count).get_new_state(2, 2), when_dead[count]);
    }
}

#[test]
fn underpopulation_kills() {
    assert_eq!(neighbourhood(ALIVE, 0).get_new_state(2, 2), DEAD);
    assert_eq!(neighbourhood(ALIVE, 1).get_new_state(2, 2), DEAD);
}

#[test]
fn two_or_three_neighbours_keep_alive() {
    assert_eq!(neighbourhood(ALIVE, 2).get_new_state(2, 2), ALIVE);
    assert_eq!(neighbourhood(ALIVE, 3).get_new_state(2, 2), ALIVE);
}

#[test]
fn overpopulation_kills() {
    for count in 4..=8usize {
        assert_eq!(neighbourhood(ALIVE, count).get_new_state(2, 2), DEAD);
    }
}

#[test]
fn three_neighbours_give_birth() {
    assert_eq!(neighbourhood(DEAD, 3).get_new_state(2, 2), ALIVE);
}

#[test]
fn dead_cell_without_three_neighbours_stays_dead() {
    for count in [0usize, 1, 2, 4, 5, 6, 7, 8] {
        assert_eq!(neighbourhood(DEAD, count).get_new_state(2, 2), DEAD);
    }
}

#[test]
fn every_neighbour_counts_once() {
    for (di, dj) in AROUND {
        let at = ((2 + di) as usize, (2 + dj) as usize);
        // One neighbour alone: a living centre starves.
        let game = game_with(4, &[(2, 2), at]);
        assert_eq!(game.get_new_state(2, 2), DEAD);
        // That neighbour completes a count of three.
        let mut others = Vec::new();
        for (ei, ej) in AROUND {
            if (ei, ej) != (di, dj) && others.len() < 2 {
                others.push(((2 + ei) as usize, (2 + ej) as usize));
            }
        }
        let two = game_with(4, &others);
        assert_eq!(two.get_new_state(2, 2), DEAD);
        others.push(at);
        let three = game_with(4, &others);
        assert_eq!(three.get_new_state(2, 2), ALIVE);
    }
}

#[test]
fn get_new_state_leaves_the_grid_alone() {
    let game = game_with(4, &[(2, 1), (2, 2), (2, 3)]);
    let before = cells(&game);
    assert_eq!(game.get_new_state(1, 2), ALIVE);
    assert_eq!(game.get_new_state(2, 1), DEAD);
    assert_eq!(cells(&game), before);
}

#[test]
fn border_stays_dead_after_steps() {
    for size in [3usize, 4, 10, 50] {
        let mut game = ConwaysGameOfLife::new(size);
        for _ in 0..20 {
            game.step();
            assert_eq!(game.size(), size);
            for k in 0..=size {
                assert_eq!(game.grid().get(0, k), DEAD);
                assert_eq!(game.grid().get(k, 0), DEAD);
                assert_eq!(game.grid().get(size, k), DEAD);
                assert_eq!(game.grid().get(k, size), DEAD);
            }
        }
    }
}

#[test]
fn border_stays_dead_beside_a_full_interior() {
    let size = 6;
    let mut all = Vec::new();
    for i in 1..size {
        for j in 1..size {
            all.push((i, j));
        }
    }
    let mut game = game_with(size, &all);
    for _ in 0..5 {
        game.step();
        for (i, j) in living(&game) {
            assert!(1 <= i && i < size && 1 <= j && j < size);
        }
    }
}

#[test]
fn blinker_oscillates_with_period_two() {
    let mut game = game_with(6, &[(3, 2), (3, 3), (3, 4)]);
    let start = cells(&game);
    game.step();
    assert_eq!(living(&game), vec![(2, 3), (3, 3), (4, 3)]);
    game.step();
    assert_eq!(living(&game), vec![(3, 2), (3, 3), (3, 4)]);
    assert_eq!(cells(&game), start);
    for _ in 0..5 {
        game.step();
        game.step();
        assert_eq!(cells(&game), start);
    }
}

#[test]
fn isolated_cell_dies() {
    let mut game = game_with(6, &[(3, 3)]);
    assert_eq!(game.get_new_state(3, 3), DEAD);
    game.step();
    assert_eq!(game.grid().get(3, 3), DEAD);
    assert_eq!(living(&game), vec![]);
}

#[test]
fn empty_interior_stays_empty() {
    let mut game = game_with(10, &[]);
    for _ in 0..25 {
        game.step();
        for row in cells(&game) {
            assert_eq!(row, vec![DEAD; 11]);
        }
    }
}

#[test]
fn block_is_a_still_life() {
    let mut game = game_with(6, &[(2, 2), (2, 3), (3, 2), (3, 3)]);
    let start = cells(&game);
    for _ in 0..25 {
        game.step();
        assert_eq!(cells(&game), start);
    }
    assert_eq!(living(&game), vec![(2, 2), (2, 3), (3, 2), (3, 3)]);
}

#[test]
fn block_fills_the_smallest_interior_with_room_for_it() {
    let mut game = game_with(3, &[(1, 1), (1, 2), (2, 1), (2, 2)]);
    let start = cells(&game);
    for _ in 0..10 {
        game.step();
        assert_eq!(cells(&game), start);
    }
}

#[test]
fn last_interior_row_and_column_are_updated() {
    // Three cells of a square give birth to the fourth, in the last interior
    // row and column.
    let mut game = game_with(3, &[(1, 1), (1, 2), (2, 1)]);
    assert_eq!(game.get_new_state(2, 2), ALIVE);
    game.step();
    assert_eq!(living(&game), vec![(1, 1), (1, 2), (2, 1), (2, 2)]);
}

#[test]
fn no_birth_on_the_frame() {
    // A column of three in the last interior column would, on an unbounded
    // board, turn into a row that reaches column 4.
    let mut game = game_with(4, &[(1, 3), (2, 3), (3, 3)]);
    game.step();
    assert_eq!(game.grid().get(2, 4), DEAD);
    assert_eq!(living(&game), vec![(2, 2), (2, 3)]);
    game.step();
    assert_eq!(living(&game), vec![]);
}

#[test]
fn smallest_game_has_one_interior_cell() {
    let mut game = game_with(2, &[(1, 1)]);
    assert_eq!(game.get_new_state(1, 1), DEAD);
    game.step();
    assert_eq!(cells(&game), vec![vec![0, 0, 0], vec![0, 0, 0], vec![0, 0, 0]]);
}

#[test]
fn glider_moves_one_cell_in_four_generations() {
    let mut game = game_with(10, &[(1, 2), (2, 3), (3, 1), (3, 2), (3, 3)]);
    game.step();
    assert_eq!(living(&game), vec![(2, 1), (2, 3), (3, 2), (3, 3), (4, 2)]);
    game.step();
    assert_eq!(living(&game), vec![(2, 3), (3, 1), (3, 3), (4, 2), (4, 3)]);
    game.step();
    assert_eq!(living(&game), vec![(2, 2), (3, 3), (3, 4), (4, 2), (4, 3)]);
    game.step();
    assert_eq!(living(&game), vec![(2, 3), (3, 4), (4, 2), (4, 3), (4, 4)]);
}

#[test]
fn step_matches_the_rule_cell_by_cell() {
    for size in [3usize, 7, 20] {
        let mut game = ConwaysGameOfLife::new(size);
        for _ in 0..10 {
            let expected = expected_next(&cells(&game));
            game.step();
            assert_eq!(cells(&game), expected);
        }
    }
}

#[test]
fn two_steps_give_the_second_generation() {
    let mut game = ConwaysGameOfLife::new(20);
    let start = cells(&game);
    let second = expected_next(&expected_next(&start));
    game.step();
    game.step();
    assert_eq!(cells(&game), second);

    let mut glider = game_with(10, &[(1, 2), (2, 3), (3, 1), (3, 2), (3, 3)]);
    let second = expected_next(&expected_next(&cells(&glider)));
    glider.step();
    glider.step();
    assert_eq!(cells(&glider), second);
}

#[test]
fn row_major_and_column_major_updates_agree() {
    let size = 20;
    let mut game = ConwaysGameOfLife::new(size);
    for _ in 0..5 {
        let mut by_rows = game.grid().clone();
        for i in 1..size {
            for j in 1..size {
                by_rows.set(i, j, game.get_new_state(i, j));
            }
        }
        let mut by_columns = game.grid().clone();
        for j in 1..size {
            for i in 1..size {
                by_columns.set(i, j, game.get_new_state(i, j));
            }
        }
        let mut backwards = game.grid().clone();
        for i in (1..size).rev() {
            for j in (1..size).rev() {
                backwards.set(i, j, game.get_new_state(i, j));
            }
        }
        game.step();
        let stepped = cells(&game);
        assert_eq!(cells(&ConwaysGameOfLife::from_grid(by_rows)), stepped);
        assert_eq!(cells(&ConwaysGameOfLife::from_grid(by_columns)), stepped);
        assert_eq!(cells(&ConwaysGameOfLife::from_grid(backwards)), stepped);
    }
}

#[test]
fn step_reads_the_untouched_generation() {
    // Updating in place, row by row, would let (2, 2) see (1, 2) already
    // alive and the centre would end differently.
    let mut game = game_with(4, &[(2, 1), (2, 2), (2, 3)]);
    game.step();
    assert_eq!(
        cells(&game),
        vec![
            vec![0, 0, 0, 0, 0],
            vec![0, 0, 1, 0, 0],
            vec![0, 0, 1, 0, 0],
            vec![0, 0, 1, 0, 0],
            vec![0, 0, 0, 0, 0],
        ]
    );
}

#[test]
fn render_draws_living_and_dead_cells() {
    let game = game_with(4, &[(1, 1), (2, 2), (2, 3), (3, 1), (3, 3)]);
    assert_eq!(game.render(), "O   \n O O \nO  O \n");
}

#[test]
fn render_of_an_empty_game_is_blank_lines() {
    let game = game_with(4, &[]);
    assert_eq!(game.render(), "   \n   \n   \n");
    let small = game_with(2, &[]);
    assert_eq!(small.render(), " \n");
}

#[test]
fn render_of_a_full_game() {
    let game = game_with(3, &[(1, 1), (1, 2), (2, 1), (2, 2)]);
    assert_eq!(game.render(), "O O \nO O \n");
}

#[test]
fn render_has_one_line_for_each_interior_row() {
    for size in [2usize, 3, 10, 50] {
        let game = ConwaysGameOfLife::new(size);
        let frame = game.render();
        assert_eq!(frame.matches('\n').count(), size - 1);
        assert!(frame.ends_with('\n'));
        for (row, line) in frame.lines().enumerate() {
            let mut expected = String::new();
            for col in 1..size {
                if game.grid().get(row + 1, col) == ALIVE {
                    expected.push_str("O ");
                } else {
                    expected.push(' ');
                }
            }
            assert_eq!(line, expected);
        }
    }
}

#[test]
fn render_leaves_out_the_frame() {
    let mut game = game_with(3, &[(1, 1)]);
    assert_eq!(game.render(), "O  \n  \n");
    game.step();
    assert_eq!(game.render(), "  \n  \n");
}
