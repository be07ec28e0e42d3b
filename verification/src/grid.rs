use vstd::prelude::*;

verus! {

/// Dimensions of the console the grid lives in: fixed for a whole run.
pub struct ConsoleSize {
    /// The number of rows in the console.
    pub rows: usize,
    /// The number of columns in the console.
    pub cols: usize,
}

/// A well-formed grid has exactly `rows` rows, each of length `cols`.
pub open spec fn grid_wf(g: Seq<Seq<bool>>, rows: nat, cols: nat) -> bool {
    &&& g.len() == rows
    &&& forall|i: int| 0 <= i < g.len() ==> (#[trigger] g[i]).len() == cols
}

/// Whether the cell at (row, col) is inside the grid and live.
/// Positions outside the grid count as dead, so neighbor lookups
/// need no wrapping and no special-casing at the edges.
pub open spec fn cell_at(g: Seq<Seq<bool>>, row: int, col: int) -> bool {
    &&& 0 <= row < g.len()
    &&& 0 <= col < g[row].len()
    &&& g[row][col]
}

/// One if the cell state is live, zero if dead.
pub open spec fn occupancy(b: bool) -> int {
    if b {
        1
    } else {
        0
    }
}

/// The number of live cells among the eight Moore neighbors of (row, col).
/// Neighbors outside the grid contribute zero.
pub open spec fn spec_live_neighbors(g: Seq<Seq<bool>>, row: int, col: int) -> int {
    occupancy(cell_at(g, row - 1, col - 1)) + occupancy(cell_at(g, row - 1, col))
        + occupancy(cell_at(g, row - 1, col + 1)) + occupancy(cell_at(g, row, col - 1))
        + occupancy(cell_at(g, row, col + 1)) + occupancy(cell_at(g, row + 1, col - 1))
        + occupancy(cell_at(g, row + 1, col)) + occupancy(cell_at(g, row + 1, col + 1))
}

/// The B3/S23 rule for a single cell: live next generation iff it has
/// exactly three live neighbors, or it is live now and has exactly two.
pub open spec fn next_cell(g: Seq<Seq<bool>>, row: int, col: int) -> bool {
    let n = spec_live_neighbors(g, row, col);
    n == 3 || (n == 2 && cell_at(g, row, col))
}

/// Bounds-checked cell lookup: false for any position outside the grid.
fn cell_live(grid: &Vec<Vec<bool>>, row: usize, col: usize) -> (live: bool)
    ensures
        live == cell_at(grid.deep_view(), row as int, col as int),
{
    row < grid.len() && col < grid[row].len() && grid[row][col]
}

/// Counts the live cells among the eight Moore neighbors of the cell at
/// column `x`, row `y`. Neighbors outside the grid are treated as dead.
pub fn live_neighbors(grid: &Vec<Vec<bool>>, x: usize, y: usize) -> (count: usize)
    requires
        (y as int) < grid.deep_view().len(),
        (x as int) < grid.deep_view()[y as int].len(),
    ensures
        count == spec_live_neighbors(grid.deep_view(), y as int, x as int),
        count <= 8,
{
    // Taking the lengths as usize pins both indices below usize::MAX, so the
    // +1 neighbor offsets below cannot overflow.
    let _rows = grid.len();
    let _row_len = grid[y].len();
    let mut count: usize = 0;
    if y >= 1 {
        if x >= 1 && cell_live(grid, y - 1, x - 1) {
            count += 1;
        }
        if cell_live(grid, y - 1, x) {
            count += 1;
        }
        if cell_live(grid, y - 1, x + 1) {
            count += 1;
        }
    }
    if x >= 1 && cell_live(grid, y, x - 1) {
        count += 1;
    }
    if cell_live(grid, y, x + 1) {
        count += 1;
    }
    if x >= 1 && cell_live(grid, y + 1, x - 1) {
        count += 1;
    }
    if cell_live(grid, y + 1, x) {
        count += 1;
    }
    if cell_live(grid, y + 1, x + 1) {
        count += 1;
    }
    count
}

/// The advance relation: `r` is the generation after `g` for a `rows` by
/// `cols` grid — well-formed, with every cell set by the B3/S23 rule
/// applied to `g` alone.
pub open spec fn advanced(g: Seq<Seq<bool>>, r: Seq<Seq<bool>>, rows: nat, cols: nat) -> bool {
    &&& grid_wf(r, rows, cols)
    &&& forall|i: int, j: int|
        0 <= i < rows && 0 <= j < cols ==> #[trigger] r[i][j] == next_cell(g, i, j)
}

/// Computes the next generation: a fresh grid of the same dimensions in
/// which every cell follows the B3/S23 rule applied to the current grid.
/// The whole step is synchronous: every new cell is a function of the old
/// grid alone.
pub fn update_grid(grid: &Vec<Vec<bool>>, size: &ConsoleSize) -> (next: Vec<Vec<bool>>)
    requires
        grid_wf(grid.deep_view(), size.rows as nat, size.cols as nat),
    ensures
        advanced(grid.deep_view(), next.deep_view(), size.rows as nat, size.cols as nat),
{
    let mut next: Vec<Vec<bool>> = Vec::new();
    for i in 0..size.rows
        invariant
            grid_wf(grid.deep_view(), size.rows as nat, size.cols as nat),
            next.deep_view().len() == i,
            forall|r: int| 0 <= r < i ==> (#[trigger] next.deep_view()[r]).len() == size.cols,
            forall|r: int, c: int|
                0 <= r < i && 0 <= c < size.cols ==> #[trigger] next.deep_view()[r][c]
                    == next_cell(grid.deep_view(), r, c),
    {
        let mut row: Vec<bool> = Vec::new();
        for j in 0..size.cols
            invariant
                grid_wf(grid.deep_view(), size.rows as nat, size.cols as nat),
                i < size.rows,
                row@.len() == j,
                forall|c: int|
                    0 <= c < j ==> #[trigger] row@[c] == next_cell(grid.deep_view(), i as int, c),
        {
            let n = live_neighbors(grid, j, i);
            let alive = if grid[i][j] {
                n == 2 || n == 3
            } else {
                n == 3
            };
            row.push(alive);
        }
        let ghost pre = next.deep_view();
        let ghost rv = row@;
        next.push(row);
        proof {
            assert forall|r: int| 0 <= r < pre.len() implies #[trigger] next.deep_view()[r]
                == pre[r] by {
                assert(next@[r].deep_view() == pre[r]);
            }
            assert(next.deep_view()[i as int].len() == rv.len());
            assert forall|c: int| 0 <= c < rv.len() implies #[trigger] next.deep_view()[i as int][c]
                == rv[c] by {
                assert(next@[i as int].deep_view()[c] == rv[c]);
            }
        }
    }
    next
}

/// Whether (i, j) lies on the outermost border of the grid: the first or
/// last row, or the first or last cell of its row.
pub open spec fn on_border(g: Seq<Seq<bool>>, i: int, j: int) -> bool {
    i == 0 || i == g.len() - 1 || j == 0 || j == g[i].len() - 1
}

/// Forces the outermost rows and columns live — a fixed wall of always-live
/// cells around the field — and leaves every interior cell as it was.
pub fn apply_border_wall(grid: &Vec<Vec<bool>>) -> (walled: Vec<Vec<bool>>)
    ensures
        walled.deep_view().len() == grid.deep_view().len(),
        forall|i: int|
            0 <= i < grid.deep_view().len() ==> (#[trigger] walled.deep_view()[i]).len()
                == grid.deep_view()[i].len(),
        forall|i: int, j: int|
            0 <= i < grid.deep_view().len() && 0 <= j < grid.deep_view()[i].len()
                ==> #[trigger] walled.deep_view()[i][j] == (on_border(grid.deep_view(), i, j)
                || grid.deep_view()[i][j]),
{
    let ghost g = grid.deep_view();
    let rows = grid.len();
    let mut walled: Vec<Vec<bool>> = Vec::new();
    for i in 0..rows
        invariant
            g == grid.deep_view(),
            rows == g.len(),
            walled.deep_view().len() == i,
            forall|r: int| 0 <= r < i ==> (#[trigger] walled.deep_view()[r]).len() == g[r].len(),
            forall|r: int, c: int|
                0 <= r < i && 0 <= c < g[r].len() ==> #[trigger] walled.deep_view()[r][c] == (
                on_border(g, r, c) || g[r][c]),
    {
        let cols_here = grid[i].len();
        let mut row: Vec<bool> = Vec::new();
        for j in 0..cols_here
            invariant
                g == grid.deep_view(),
                rows == g.len(),
                i < rows,
                cols_here == g[i as int].len(),
                row@.len() == j,
                forall|c: int|
                    0 <= c < j ==> #[trigger] row@[c] == (on_border(g, i as int, c) || g[i as int][c]),
        {
            let live = i == 0 || i == rows - 1 || j == 0 || j == cols_here - 1 || grid[i][j];
            row.push(live);
        }
        let ghost pre = walled.deep_view();
        let ghost rv = row@;
        walled.push(row);
        proof {
            assert forall|r: int| 0 <= r < pre.len() implies #[trigger] walled.deep_view()[r]
                == pre[r] by {
                assert(walled@[r].deep_view() == pre[r]);
            }
            assert(walled.deep_view()[i as int].len() == rv.len());
            assert forall|c: int| 0 <= c < rv.len() implies #[trigger] walled.deep_view()[i as int][c]
                == rv[c] by {
                assert(walled@[i as int].deep_view()[c] == rv[c]);
            }
        }
    }
    walled
}

/// Law: the live-neighbor count of any position of any grid lies between
/// zero and eight — each of the eight Moore neighbors contributes either
/// zero or one.
pub proof fn lemma_neighbor_count_bounds(g: Seq<Seq<bool>>, row: int, col: int)
    ensures
        0 <= spec_live_neighbors(g, row, col) <= 8,
{
}

/// Law: the B3/S23 rule, cell by cell — exactly three live neighbors make
/// the cell live next generation whatever its current state; fewer than two
/// or more than three make it dead whatever its current state; a live cell
/// with exactly two live neighbors stays live.
pub proof fn lemma_birth_survival_rule(g: Seq<Seq<bool>>, row: int, col: int)
    ensures
        spec_live_neighbors(g, row, col) == 3 ==> next_cell(g, row, col),
        spec_live_neighbors(g, row, col) < 2 ==> !next_cell(g, row, col),
        spec_live_neighbors(g, row, col) > 3 ==> !next_cell(g, row, col),
        cell_at(g, row, col) && spec_live_neighbors(g, row, col) == 2 ==> next_cell(g, row, col),
{
}

/// Law: advancing is deterministic — any two grids that both stand in the
/// advance relation to the same input grid are equal.
pub proof fn lemma_advance_deterministic(
    g: Seq<Seq<bool>>,
    a: Seq<Seq<bool>>,
    b: Seq<Seq<bool>>,
    rows: nat,
    cols: nat,
)
    requires
        advanced(g, a, rows, cols),
        advanced(g, b, rows, cols),
    ensures
        a == b,
{
    assert forall|i: int| 0 <= i < rows implies #[trigger] a[i] == b[i] by {
        assert forall|j: int| 0 <= j < cols implies #[trigger] a[i][j] == b[i][j] by {
            assert(a[i][j] == next_cell(g, i, j));
            assert(b[i][j] == next_cell(g, i, j));
        }
        assert(a[i] =~= b[i]);
    }
    assert(a =~= b);
}

/// Law: a grid with no live cell advances to a grid with no live cell, and
/// since the dimensions are kept, the all-dead grid is a fixed point.
pub proof fn lemma_all_dead_fixed_point(g: Seq<Seq<bool>>, r: Seq<Seq<bool>>, rows: nat, cols: nat)
    requires
        grid_wf(g, rows, cols),
        forall|i: int, j: int| 0 <= i < rows && 0 <= j < cols ==> !(#[trigger] g[i][j]),
        advanced(g, r, rows, cols),
    ensures
        forall|i: int, j: int| 0 <= i < rows && 0 <= j < cols ==> !(#[trigger] r[i][j]),
        r == g,
{
    assert forall|i: int, j: int| !cell_at(g, i, j) by {
        if 0 <= i < g.len() && 0 <= j < g[i].len() {
            assert(!g[i][j]);
        }
    }
    assert forall|i: int, j: int| 0 <= i < rows && 0 <= j < cols implies !(#[trigger] r[i][j]) by {
        assert(r[i][j] == next_cell(g, i, j));
        assert(spec_live_neighbors(g, i, j) == 0);
    }
    assert forall|i: int| 0 <= i < rows implies #[trigger] r[i] == g[i] by {
        assert forall|j: int| 0 <= j < cols implies #[trigger] r[i][j] == g[i][j] by {
            assert(!r[i][j] && !g[i][j]);
        }
        assert(r[i] =~= g[i]);
    }
    assert(r =~= g);
}

/// Law: a live cell whose eight Moore neighbors are all dead is dead after
/// one advance.
pub proof fn lemma_isolated_cell_dies(
    g: Seq<Seq<bool>>,
    r: Seq<Seq<bool>>,
    rows: nat,
    cols: nat,
    row: int,
    col: int,
)
    requires
        advanced(g, r, rows, cols),
        0 <= row < rows,
        0 <= col < cols,
        cell_at(g, row, col),
        !cell_at(g, row - 1, col - 1),
        !cell_at(g, row - 1, col),
        !cell_at(g, row - 1, col + 1),
        !cell_at(g, row, col - 1),
        !cell_at(g, row, col + 1),
        !cell_at(g, row + 1, col - 1),
        !cell_at(g, row + 1, col),
        !cell_at(g, row + 1, col + 1),
    ensures
        !r[row][col],
{
    assert(spec_live_neighbors(g, row, col) == 0);
    assert(r[row][col] == next_cell(g, row, col));
}

} // verus!
