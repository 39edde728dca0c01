use game_of_life::game::{CellState, Grid};

#[test]
fn test_cell_index() {
    let grid = Grid::new(6, 6);

    assert_eq!(grid.cell_index(0, 4), 4);
    assert_eq!(grid.cell_index(2, 2), 14);
    assert_eq!(grid.cell_index(5, 5), 35);
}

#[test]
fn test_count_neighbors() {
    let mut grid = Grid::new(5, 5);
    grid.set_alive(1, 2);
    grid.set_alive(2, 3);
    grid.set_alive(3, 0);
    grid.set_alive(3, 1);
    grid.set_alive(3, 2);
    grid.set_alive(3, 3);

    assert_eq!(grid.count_neighbors(1, 1), 1);
    assert_eq!(grid.count_neighbors(2, 2), 5);
    assert_eq!(grid.count_neighbors(3, 4), 3);
}

#[test]
fn test_iterate() {
    let mut grid = Grid::new(5, 5);
    grid.set_alive(1, 2);
    grid.set_alive(2, 3);
    grid.set_alive(3, 1);
    grid.set_alive(3, 2);
    grid.set_alive(3, 3);

    grid.iterate();

    let mut expected = Grid::new(5, 5);
    expected.set_alive(2, 1);
    expected.set_alive(2, 3);
    expected.set_alive(3, 2);
    expected.set_alive(3, 3);
    expected.set_alive(4, 2);

    assert_eq!(grid.render(), expected.render());
}

#[test]
fn dead_grid_stays_dead() {
    let mut grid = Grid::new(4, 6);
    for _ in 0..10 {
        grid.iterate();
    }
    for row in 0..4 {
        for col in 0..6 {
            assert_eq!(grid.get(row, col), CellState::Dead);
        }
    }
}

#[test]
fn block_is_a_still_life() {
    let mut grid = Grid::new(6, 7);
    grid.set_alive(2, 2);
    grid.set_alive(2, 3);
    grid.set_alive(3, 2);
    grid.set_alive(3, 3);
    let before = grid.render();

    grid.iterate();

    assert_eq!(grid.render(), before);
}

#[test]
fn boundary_cells_have_eight_neighbor_slots() {
    // On a grid where every cell is alive, every neighbor count is 8 --
    // corners and edges included, since wrapped slots are counted with
    // their multiplicities.
    let mut grid = Grid::new(3, 3);
    for row in 0..3 {
        for col in 0..3 {
            grid.set_alive(row, col);
        }
    }
    assert_eq!(grid.count_neighbors(0, 0), 8);
    assert_eq!(grid.count_neighbors(0, 2), 8);
    assert_eq!(grid.count_neighbors(2, 0), 8);
    assert_eq!(grid.count_neighbors(1, 1), 8);

    let mut big = Grid::new(5, 5);
    for row in 0..5 {
        for col in 0..5 {
            big.set_alive(row, col);
        }
    }
    assert_eq!(big.count_neighbors(0, 0), 8);
    assert_eq!(big.count_neighbors(4, 4), 8);
    assert_eq!(big.count_neighbors(2, 2), 8);
}

#[test]
fn wraparound_uses_each_axis_own_length() {
    // Non-square grid: the row offset must wrap modulo the height and the
    // column offset modulo the width.
    let mut grid = Grid::new(3, 5);
    grid.set_alive(0, 0);

    // (2, 4) has (0, 0) as its wrapped down-right neighbor.
    assert_eq!(grid.count_neighbors(2, 4), 1);
    assert_eq!(grid.count_neighbors(1, 0), 1);
    // (1, 2) is two columns away from (0, 0): no wrap reaches it.
    assert_eq!(grid.count_neighbors(1, 2), 0);
    // Row wrap: (2, 0) sits right above (0, 0) on the torus.
    assert_eq!(grid.count_neighbors(2, 0), 1);
}

#[test]
fn render_exact_text() {
    let mut grid = Grid::new(2, 3);
    grid.set_alive(0, 1);
    assert_eq!(grid.render(), " \u{25fc} \r\n   \r\n");
}

#[test]
fn snapshot_is_a_value_copy() {
    let mut grid = Grid::new(4, 4);
    grid.set_alive(1, 1);
    grid.iterate();
    let snapshot = grid.render();
    let saved = snapshot.clone();

    // Mutating the grid's new current state must not change the snapshot
    // taken earlier.
    grid.set_alive(0, 0);

    assert_eq!(snapshot, saved);
    assert_ne!(grid.render(), saved);
}
