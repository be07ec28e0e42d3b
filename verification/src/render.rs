use vstd::prelude::*;

verus! {

/// One draw operation: move the cursor to (row, col) and write `glyph`.
/// The renderer's whole output is a sequence of these; performing them in
/// order against a character screen is what a frame means.
#[derive(Clone, Copy, Debug, PartialEq, Eq, Structural)]
pub struct DrawOp {
    /// The terminal row the glyph is written to.
    pub row: usize,
    /// The terminal column the glyph is written to.
    pub col: usize,
    /// The character written: a marker for a live cell, a space for a dead one.
    pub glyph: char,
}

/// The character a cell state is drawn as.
pub open spec fn glyph_of(live: bool) -> char {
    if live {
        '#'
    } else {
        ' '
    }
}

/// Whether (row, col) is a position inside the grid.
pub open spec fn in_grid(g: Seq<Seq<bool>>, row: int, col: int) -> bool {
    0 <= row < g.len() && 0 <= col < g[row].len()
}

/// The operation writes the grid's own glyph at a position inside the grid.
pub open spec fn op_paints(op: DrawOp, g: Seq<Seq<bool>>) -> bool {
    &&& in_grid(g, op.row as int, op.col as int)
    &&& op.glyph == glyph_of(g[op.row as int][op.col as int])
}

/// The operation addresses exactly the position (row, col).
pub open spec fn op_at(op: DrawOp, row: int, col: int) -> bool {
    op.row as int == row && op.col as int == col
}

/// Some operation in the sequence addresses (row, col).
pub open spec fn covers(ops: Seq<DrawOp>, row: int, col: int) -> bool {
    exists|k: int| 0 <= k < ops.len() && op_at(#[trigger] ops[k], row, col)
}

/// Strict row-major order between two operations' positions.
pub open spec fn row_major_before(a: DrawOp, b: DrawOp) -> bool {
    a.row < b.row || (a.row == b.row && a.col < b.col)
}

/// The operations' positions are strictly increasing in row-major order;
/// in particular no position is drawn twice.
pub open spec fn ops_row_major(ops: Seq<DrawOp>) -> bool {
    forall|k1: int, k2: int|
        0 <= k1 < k2 < ops.len() ==> row_major_before(#[trigger] ops[k1], #[trigger] ops[k2])
}

/// What a full repaint emits: every grid position exactly once, in
/// row-major order, each with the grid's glyph for that position.
pub open spec fn full_paint(ops: Seq<DrawOp>, g: Seq<Seq<bool>>) -> bool {
    &&& forall|k: int| 0 <= k < ops.len() ==> op_paints(#[trigger] ops[k], g)
    &&& forall|r: int, c: int| in_grid(g, r, c) ==> #[trigger] covers(ops, r, c)
    &&& ops_row_major(ops)
}

/// The cell at (row, col) differs between the current and previous grid.
pub open spec fn changed(g: Seq<Seq<bool>>, p: Seq<Seq<bool>>, row: int, col: int) -> bool {
    g[row][col] != p[row][col]
}

/// What a differential repaint emits: exactly the changed positions, in
/// row-major order, each with the current grid's glyph.
pub open spec fn diff_paint(ops: Seq<DrawOp>, g: Seq<Seq<bool>>, p: Seq<Seq<bool>>) -> bool {
    &&& forall|k: int|
        0 <= k < ops.len() ==> op_paints(#[trigger] ops[k], g) && changed(
            g,
            p,
            ops[k].row as int,
            ops[k].col as int,
        )
    &&& forall|r: int, c: int|
        in_grid(g, r, c) && changed(g, p, r, c) ==> #[trigger] covers(ops, r, c)
    &&& ops_row_major(ops)
}

/// Emits one draw operation per grid cell, row-major from the top-left:
/// the frame a first paint or a paint without a previous frame uses.
pub fn paint_full(grid: &Vec<Vec<bool>>) -> (ops: Vec<DrawOp>)
    ensures
        full_paint(ops@, grid.deep_view()),
{
    let ghost g = grid.deep_view();
    let mut ops: Vec<DrawOp> = Vec::new();
    let rows = grid.len();
    for i in 0..rows
        invariant
            g == grid.deep_view(),
            rows == g.len(),
            forall|k: int| 0 <= k < ops@.len() ==> op_paints(#[trigger] ops@[k], g),
            forall|k: int| 0 <= k < ops@.len() ==> (#[trigger] ops@[k]).row < i,
            ops_row_major(ops@),
            forall|r: int, c: int| 0 <= r < i && 0 <= c < g[r].len() ==> #[trigger] covers(ops@, r, c),
    {
        let cols_here = grid[i].len();
        for j in 0..cols_here
            invariant
                g == grid.deep_view(),
                rows == g.len(),
                i < rows,
                cols_here == g[i as int].len(),
                forall|k: int| 0 <= k < ops@.len() ==> op_paints(#[trigger] ops@[k], g),
                forall|k: int|
                    0 <= k < ops@.len() ==> (#[trigger] ops@[k]).row < i || (ops@[k].row == i
                        && ops@[k].col < j),
                ops_row_major(ops@),
                forall|r: int, c: int|
                    0 <= r < i && 0 <= c < g[r].len() ==> #[trigger] covers(ops@, r, c),
                forall|c: int| 0 <= c < j ==> #[trigger] covers(ops@, i as int, c),
        {
            let live = grid[i][j];
            let op = DrawOp {
                row: i,
                col: j,
                glyph: if live {
                    '#'
                } else {
                    ' '
                },
            };
            let ghost pre = ops@;
            ops.push(op);
            proof {
                assert forall|r: int, c: int| 0 <= r < i && 0 <= c < g[r].len() implies #[trigger] covers(
                    ops@,
                    r,
                    c,
                ) by {
                    assert(covers(pre, r, c));
                    let k = choose|k: int| 0 <= k < pre.len() && op_at(pre[k], r, c);
                    assert(op_at(ops@[k], r, c));
                }
                assert forall|c: int| 0 <= c < j + 1 implies #[trigger] covers(ops@, i as int, c) by {
                    if c < j {
                        assert(covers(pre, i as int, c));
                        let k = choose|k: int| 0 <= k < pre.len() && op_at(pre[k], i as int, c);
                        assert(op_at(ops@[k], i as int, c));
                    } else {
                        assert(op_at(ops@[pre.len() as int], i as int, c));
                    }
                }
                assert forall|k1: int, k2: int| 0 <= k1 < k2 < ops@.len() implies row_major_before(
                    ops@[k1],
                    ops@[k2],
                ) by {
                    if k2 < pre.len() {
                        assert(row_major_before(pre[k1], pre[k2]));
                    }
                }
            }
        }
    }
    ops
}

/// Emits one draw operation per changed cell — current differing from
/// previous — row-major from the top-left, with the current grid's glyph.
/// Unchanged positions are left untouched; identical grids emit nothing.
pub fn paint_diff(grid: &Vec<Vec<bool>>, prev_grid: &Vec<Vec<bool>>) -> (ops: Vec<DrawOp>)
    requires
        prev_grid.deep_view().len() == grid.deep_view().len(),
        forall|r: int|
            0 <= r < grid.deep_view().len() ==> (#[trigger] prev_grid.deep_view()[r]).len()
                == grid.deep_view()[r].len(),
    ensures
        diff_paint(ops@, grid.deep_view(), prev_grid.deep_view()),
        grid.deep_view() == prev_grid.deep_view() ==> ops@.len() == 0,
{
    let ghost g = grid.deep_view();
    let ghost p = prev_grid.deep_view();
    let mut ops: Vec<DrawOp> = Vec::new();
    let rows = grid.len();
    for i in 0..rows
        invariant
            g == grid.deep_view(),
            p == prev_grid.deep_view(),
            rows == g.len(),
            p.len() == g.len(),
            forall|r: int| 0 <= r < g.len() ==> (#[trigger] p[r]).len() == g[r].len(),
            forall|k: int|
                0 <= k < ops@.len() ==> op_paints(#[trigger] ops@[k], g) && changed(
                    g,
                    p,
                    ops@[k].row as int,
                    ops@[k].col as int,
                ),
            forall|k: int| 0 <= k < ops@.len() ==> (#[trigger] ops@[k]).row < i,
            ops_row_major(ops@),
            forall|r: int, c: int|
                0 <= r < i && 0 <= c < g[r].len() && changed(g, p, r, c) ==> #[trigger] covers(
                    ops@,
                    r,
                    c,
                ),
    {
        let cols_here = grid[i].len();
        for j in 0..cols_here
            invariant
                g == grid.deep_view(),
                p == prev_grid.deep_view(),
                rows == g.len(),
                p.len() == g.len(),
                i < rows,
                cols_here == g[i as int].len(),
                forall|r: int| 0 <= r < g.len() ==> (#[trigger] p[r]).len() == g[r].len(),
                forall|k: int|
                    0 <= k < ops@.len() ==> op_paints(#[trigger] ops@[k], g) && changed(
                        g,
                        p,
                        ops@[k].row as int,
                        ops@[k].col as int,
                    ),
                forall|k: int|
                    0 <= k < ops@.len() ==> (#[trigger] ops@[k]).row < i || (ops@[k].row == i
                        && ops@[k].col < j),
                ops_row_major(ops@),
                forall|r: int, c: int|
                    0 <= r < i && 0 <= c < g[r].len() && changed(g, p, r, c) ==> #[trigger] covers(
                        ops@,
                        r,
                        c,
                    ),
                forall|c: int|
                    0 <= c < j && changed(g, p, i as int, c) ==> #[trigger] covers(ops@, i as int, c),
        {
            proof {
                assert(p[i as int].len() == g[i as int].len());
            }
            let live = grid[i][j];
            if live != prev_grid[i][j] {
                let op = DrawOp {
                    row: i,
                    col: j,
                    glyph: if live {
                        '#'
                    } else {
                        ' '
                    },
                };
                let ghost pre = ops@;
                ops.push(op);
                proof {
                    assert forall|r: int, c: int|
                        0 <= r < i && 0 <= c < g[r].len() && changed(g, p, r, c) implies #[trigger] covers(
                        ops@,
                        r,
                        c,
                    ) by {
                        assert(covers(pre, r, c));
                        let k = choose|k: int| 0 <= k < pre.len() && op_at(pre[k], r, c);
                        assert(op_at(ops@[k], r, c));
                    }
                    assert forall|c: int|
                        0 <= c < j + 1 && changed(g, p, i as int, c) implies #[trigger] covers(
                        ops@,
                        i as int,
                        c,
                    ) by {
                        if c < j {
                            assert(covers(pre, i as int, c));
                            let k = choose|k: int|
                                0 <= k < pre.len() && op_at(pre[k], i as int, c);
                            assert(op_at(ops@[k], i as int, c));
                        } else {
                            assert(op_at(ops@[pre.len() as int], i as int, c));
                        }
                    }
                    assert forall|k1: int, k2: int|
                        0 <= k1 < k2 < ops@.len() implies row_major_before(ops@[k1], ops@[k2]) by {
                        if k2 < pre.len() {
                            assert(row_major_before(pre[k1], pre[k2]));
                        }
                    }
                }
            } else {
                proof {
                    assert(!changed(g, p, i as int, j as int));
                }
            }
        }
    }
    proof {
        if g == p && ops@.len() > 0 {
            assert(op_paints(ops@[0], g));
            assert(changed(g, p, ops@[0].row as int, ops@[0].col as int));
            assert(false);
        }
    }
    ops
}

/// A screen is a partial map from (row, col) to the character last drawn
/// there. Performing one operation writes its glyph at its position.
pub open spec fn apply_op(screen: Map<(int, int), char>, op: DrawOp) -> Map<(int, int), char> {
    screen.insert((op.row as int, op.col as int), op.glyph)
}

/// Performs a sequence of draw operations in order, first to last.
pub open spec fn apply_ops(screen: Map<(int, int), char>, ops: Seq<DrawOp>) -> Map<
    (int, int),
    char,
>
    decreases ops.len(),
{
    if ops.len() == 0 {
        screen
    } else {
        apply_ops(apply_op(screen, ops[0]), ops.subrange(1, ops.len() as int))
    }
}

/// A position no operation addresses keeps its prior screen content.
pub proof fn lemma_apply_ops_untouched(
    screen: Map<(int, int), char>,
    ops: Seq<DrawOp>,
    row: int,
    col: int,
)
    requires
        forall|k: int| 0 <= k < ops.len() ==> !op_at(#[trigger] ops[k], row, col),
    ensures
        apply_ops(screen, ops).contains_key((row, col)) == screen.contains_key((row, col)),
        screen.contains_key((row, col)) ==> apply_ops(screen, ops)[(row, col)] == screen[(
            row,
            col,
        )],
    decreases ops.len(),
{
    if ops.len() > 0 {
        let rest = ops.subrange(1, ops.len() as int);
        assert forall|k: int| 0 <= k < rest.len() implies !op_at(#[trigger] rest[k], row, col) by {
            assert(rest[k] == ops[k + 1]);
        }
        assert(!op_at(ops[0], row, col));
        lemma_apply_ops_untouched(apply_op(screen, ops[0]), rest, row, col);
    }
}

/// A position some operation addresses, all of whose operations write the
/// same glyph, ends up holding that glyph.
pub proof fn lemma_apply_ops_writes(
    screen: Map<(int, int), char>,
    ops: Seq<DrawOp>,
    row: int,
    col: int,
    v: char,
)
    requires
        covers(ops, row, col),
        forall|k: int| 0 <= k < ops.len() && op_at(#[trigger] ops[k], row, col) ==> ops[k].glyph == v,
    ensures
        apply_ops(screen, ops).contains_key((row, col)),
        apply_ops(screen, ops)[(row, col)] == v,
    decreases ops.len(),
{
    let k0 = choose|k: int| 0 <= k < ops.len() && op_at(#[trigger] ops[k], row, col);
    let rest = ops.subrange(1, ops.len() as int);
    let s1 = apply_op(screen, ops[0]);
    assert forall|k: int|
        0 <= k < rest.len() && op_at(#[trigger] rest[k], row, col) implies rest[k].glyph == v by {
        assert(rest[k] == ops[k + 1]);
    }
    if covers(rest, row, col) {
        lemma_apply_ops_writes(s1, rest, row, col, v);
    } else {
        if k0 > 0 {
            assert(op_at(rest[k0 - 1], row, col));
            assert(covers(rest, row, col));
        }
        assert(op_at(ops[0], row, col));
        assert(s1.contains_key((row, col)) && s1[(row, col)] == v);
        lemma_apply_ops_untouched(s1, rest, row, col);
        assert forall|k: int| 0 <= k < rest.len() implies !op_at(#[trigger] rest[k], row, col) by {
            if op_at(rest[k], row, col) {
                assert(covers(rest, row, col));
            }
        }
    }
}

/// The screen after a full repaint of `g` over a prior screen: every grid
/// position shows the grid's glyph, every other position is untouched.
pub open spec fn screen_after_full(screen: Map<(int, int), char>, g: Seq<Seq<bool>>) -> Map<
    (int, int),
    char,
> {
    Map::new(
        |q: (int, int)| screen.contains_key(q) || in_grid(g, q.0, q.1),
        |q: (int, int)|
            if in_grid(g, q.0, q.1) {
                glyph_of(g[q.0][q.1])
            } else {
                screen[q]
            },
    )
}

/// Performing any operation sequence that a full repaint of `g` may emit
/// turns any prior screen into `screen_after_full` of it.
pub proof fn lemma_full_paint_screen(
    screen: Map<(int, int), char>,
    ops: Seq<DrawOp>,
    g: Seq<Seq<bool>>,
)
    requires
        full_paint(ops, g),
    ensures
        apply_ops(screen, ops) == screen_after_full(screen, g),
{
    let a = apply_ops(screen, ops);
    let b = screen_after_full(screen, g);
    assert forall|q: (int, int)|
        #![trigger a.dom().contains(q)]
        #![trigger b.dom().contains(q)]
        a.dom().contains(q) == b.dom().contains(q) && (a.dom().contains(q) ==> a[q] == b[q]) by {
        let r = q.0;
        let c = q.1;
        if in_grid(g, r, c) {
            assert(covers(ops, r, c));
            assert forall|k: int|
                0 <= k < ops.len() && op_at(#[trigger] ops[k], r, c) implies ops[k].glyph
                == glyph_of(g[r][c]) by {
                assert(op_paints(ops[k], g));
            }
            lemma_apply_ops_writes(screen, ops, r, c, glyph_of(g[r][c]));
        } else {
            assert forall|k: int| 0 <= k < ops.len() implies !op_at(#[trigger] ops[k], r, c) by {
                if op_at(ops[k], r, c) {
                    assert(op_paints(ops[k], g));
                }
            }
            lemma_apply_ops_untouched(screen, ops, r, c);
        }
    }
    assert(a.dom() =~= b.dom());
    assert(a =~= b);
}

/// A full repaint is idempotent on the screen it produces.
pub proof fn lemma_screen_after_full_idempotent(
    screen: Map<(int, int), char>,
    g: Seq<Seq<bool>>,
)
    ensures
        screen_after_full(screen_after_full(screen, g), g) == screen_after_full(screen, g),
{
    let once = screen_after_full(screen, g);
    let twice = screen_after_full(once, g);
    assert(twice.dom() =~= once.dom());
    assert(twice =~= once);
}

/// Law: a differential paint of a grid against itself issues no draw
/// operation at all.
pub proof fn lemma_diff_same_grid_empty(ops: Seq<DrawOp>, g: Seq<Seq<bool>>)
    requires
        diff_paint(ops, g, g),
    ensures
        ops.len() == 0,
{
    if ops.len() > 0 {
        assert(op_paints(ops[0], g));
        assert(changed(g, g, ops[0].row as int, ops[0].col as int));
    }
}

/// Law: after a full paint of a grid, a differential paint against that
/// same grid leaves the screen exactly as a second full paint would — the
/// two frames are equivalent in final rendered state, whatever the screen
/// held before.
pub proof fn lemma_full_then_diff_matches_two_fulls(
    screen: Map<(int, int), char>,
    g: Seq<Seq<bool>>,
    first: Seq<DrawOp>,
    diff: Seq<DrawOp>,
    second: Seq<DrawOp>,
)
    requires
        full_paint(first, g),
        full_paint(second, g),
        diff_paint(diff, g, g),
    ensures
        apply_ops(apply_ops(screen, first), diff) == apply_ops(apply_ops(screen, first), second),
{
    lemma_diff_same_grid_empty(diff, g);
    lemma_full_paint_screen(screen, first, g);
    lemma_full_paint_screen(screen_after_full(screen, g), second, g);
    lemma_screen_after_full_idempotent(screen, g);
}

} // verus!
