use game_of_life::grid::{live_neighbors, update_grid, ConsoleSize};
use game_of_life::random::initialize_grid;

fn size_of(grid: &Vec<Vec<bool>>) -> ConsoleSize {
    ConsoleSize { rows: grid.len(), cols: if grid.len() > 0 { grid[0].len() } else { 0 } }
}

#[test]
fn live_neighbors_counts_exact() {
    let grid = vec![
        vec![true, false, true],
        vec![false, true, false],
        vec![false, true, false],
    ];
    // center (col 1, row 1): neighbors are the two top corners and the cell below
    assert_eq!(live_neighbors(&grid, 1, 1), 3);
    // top-left corner (col 0, row 0): only the center is a live neighbor
    assert_eq!(live_neighbors(&grid, 0, 0), 1);
    // bottom-right corner (col 2, row 2): center and (1,2) are live neighbors
    assert_eq!(live_neighbors(&grid, 2, 2), 2);
    // right edge (col 2, row 1): both top corners are out of its neighborhood
    assert_eq!(live_neighbors(&grid, 2, 1), 3);
}

#[test]
fn live_neighbors_never_exceeds_eight() {
    let grid = vec![vec![true; 4]; 4];
    for row in 0..4 {
        for col in 0..4 {
            let n = live_neighbors(&grid, col, row);
            assert!(n <= 8);
        }
    }
    // an interior cell of an all-live grid has the full eight
    assert_eq!(live_neighbors(&grid, 1, 1), 8);
    // a corner of an all-live grid sees only three neighbors
    assert_eq!(live_neighbors(&grid, 0, 0), 3);
}

#[test]
fn update_grid_blinker_oscillates() {
    let horizontal = vec![
        vec![false, false, false, false, false],
        vec![false, false, false, false, false],
        vec![false, true, true, true, false],
        vec![false, false, false, false, false],
        vec![false, false, false, false, false],
    ];
    let vertical = vec![
        vec![false, false, false, false, false],
        vec![false, false, true, false, false],
        vec![false, false, true, false, false],
        vec![false, false, true, false, false],
        vec![false, false, false, false, false],
    ];
    let size = size_of(&horizontal);
    let step1 = update_grid(&horizontal, &size);
    assert_eq!(step1, vertical);
    let step2 = update_grid(&step1, &size);
    assert_eq!(step2, horizontal);
}

#[test]
fn update_grid_all_dead_stays_all_dead() {
    let grid = vec![vec![false; 3]; 3];
    let size = size_of(&grid);
    let next = update_grid(&grid, &size);
    assert_eq!(next, grid);
}

#[test]
fn update_grid_isolated_cell_dies() {
    let mut grid = vec![vec![false; 3]; 3];
    grid[1][1] = true;
    let size = size_of(&grid);
    let next = update_grid(&grid, &size);
    assert_eq!(next, vec![vec![false; 3]; 3]);
}

#[test]
fn update_grid_birth_and_survival() {
    // an L-shaped triple: (0,0), (1,0), (1,1) live
    let grid = vec![
        vec![true, false, false],
        vec![true, true, false],
        vec![false, false, false],
    ];
    let size = size_of(&grid);
    let next = update_grid(&grid, &size);
    // the dead cell at (0,1) has exactly three live neighbors: born
    assert!(next[0][1]);
    // every live cell has two or three live neighbors: all survive
    assert!(next[0][0] && next[1][0] && next[1][1]);
    // the dead corner at (2,2) has no live neighbor: stays dead
    assert!(!next[2][2]);
}

#[test]
fn update_grid_deterministic() {
    let grid = vec![
        vec![true, false, true, false],
        vec![false, true, true, false],
        vec![true, false, false, true],
    ];
    let size = size_of(&grid);
    let a = update_grid(&grid, &size);
    let b = update_grid(&grid, &size);
    assert_eq!(a, b);
}

#[test]
fn initialize_probability_zero_is_all_dead() {
    let size = ConsoleSize { rows: 3, cols: 3 };
    let grid = initialize_grid(&size, 0, 10);
    assert_eq!(grid.len(), 3);
    for row in &grid {
        assert_eq!(row.len(), 3);
        for &cell in row {
            assert!(!cell);
        }
    }
    // advancing the all-dead grid keeps it all dead
    let next = update_grid(&grid, &size);
    assert_eq!(next, vec![vec![false; 3]; 3]);
}

#[test]
fn initialize_probability_one_is_all_live() {
    let size = ConsoleSize { rows: 2, cols: 4 };
    let grid = initialize_grid(&size, 10, 10);
    assert_eq!(grid.len(), 2);
    for row in &grid {
        assert_eq!(row.len(), 4);
        for &cell in row {
            assert!(cell);
        }
    }
}

#[test]
fn initialize_ratio_above_one_is_clamped_to_all_live() {
    let size = ConsoleSize { rows: 2, cols: 2 };
    let grid = initialize_grid(&size, 25, 10);
    for row in &grid {
        for &cell in row {
            assert!(cell);
        }
    }
}

#[test]
fn initialize_dimensions_match_request() {
    let size = ConsoleSize { rows: 5, cols: 7 };
    let grid = initialize_grid(&size, 5, 10);
    assert_eq!(grid.len(), 5);
    for row in &grid {
        assert_eq!(row.len(), 7);
    }
}

#[test]
fn border_wall_forces_edges_live_and_keeps_interior() {
    let grid = vec![
        vec![false, false, false, false],
        vec![false, true, false, false],
        vec![false, false, false, false],
        vec![false, false, false, false],
    ];
    let walled = game_of_life::grid::apply_border_wall(&grid);
    for row in 0..4 {
        for col in 0..4 {
            let expected = row == 0 || row == 3 || col == 0 || col == 3 || grid[row][col];
            assert_eq!(walled[row][col], expected);
        }
    }
    assert!(walled[1][1]);
    assert!(!walled[1][2]);
    assert!(!walled[2][2]);
}
