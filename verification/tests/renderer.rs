use game_of_life::render::{paint_diff, paint_full, DrawOp};

fn apply_to_screen(screen: &mut Vec<Vec<char>>, ops: &Vec<DrawOp>) {
    for op in ops {
        screen[op.row][op.col] = op.glyph;
    }
}

#[test]
fn paint_full_emits_every_cell_row_major() {
    let grid = vec![vec![true, false], vec![false, true]];
    let ops = paint_full(&grid);
    assert_eq!(ops.len(), 4);
    assert_eq!(ops[0], DrawOp { row: 0, col: 0, glyph: '#' });
    assert_eq!(ops[1], DrawOp { row: 0, col: 1, glyph: ' ' });
    assert_eq!(ops[2], DrawOp { row: 1, col: 0, glyph: ' ' });
    assert_eq!(ops[3], DrawOp { row: 1, col: 1, glyph: '#' });
}

#[test]
fn paint_diff_identical_grids_emit_nothing() {
    let grid = vec![vec![true, false, true], vec![false, true, false]];
    let ops = paint_diff(&grid, &grid);
    assert_eq!(ops.len(), 0);
}

#[test]
fn paint_diff_single_birth_emits_one_marker() {
    let prev = vec![vec![false, false], vec![false, false]];
    let mut grid = prev.clone();
    grid[1][0] = true;
    let ops = paint_diff(&grid, &prev);
    assert_eq!(ops.len(), 1);
    assert_eq!(ops[0], DrawOp { row: 1, col: 0, glyph: '#' });
}

#[test]
fn paint_diff_single_death_emits_one_space() {
    let prev = vec![vec![true, true], vec![true, true]];
    let mut grid = prev.clone();
    grid[0][1] = false;
    let ops = paint_diff(&grid, &prev);
    assert_eq!(ops.len(), 1);
    assert_eq!(ops[0], DrawOp { row: 0, col: 1, glyph: ' ' });
}

#[test]
fn paint_diff_emits_changes_row_major() {
    let prev = vec![vec![true, false], vec![false, true]];
    let grid = vec![vec![false, false], vec![false, false]];
    let ops = paint_diff(&grid, &prev);
    assert_eq!(ops.len(), 2);
    assert_eq!(ops[0], DrawOp { row: 0, col: 0, glyph: ' ' });
    assert_eq!(ops[1], DrawOp { row: 1, col: 1, glyph: ' ' });
}

#[test]
fn full_then_diff_matches_two_fulls() {
    // start both screens from the same stale frame of another grid
    let stale = vec![vec![true, true, true], vec![true, true, true]];
    let grid = vec![vec![false, true, false], vec![true, false, true]];

    let mut screen_a = vec![vec!['.'; 3]; 2];
    let mut screen_b = vec![vec!['.'; 3]; 2];
    apply_to_screen(&mut screen_a, &paint_full(&stale));
    apply_to_screen(&mut screen_b, &paint_full(&stale));

    // screen a: full paint, then a differential paint against the same grid
    apply_to_screen(&mut screen_a, &paint_full(&grid));
    apply_to_screen(&mut screen_a, &paint_diff(&grid, &grid));

    // screen b: two consecutive full paints
    apply_to_screen(&mut screen_b, &paint_full(&grid));
    apply_to_screen(&mut screen_b, &paint_full(&grid));

    assert_eq!(screen_a, screen_b);
    assert_eq!(screen_a[0], vec![' ', '#', ' ']);
    assert_eq!(screen_a[1], vec!['#', ' ', '#']);
}
