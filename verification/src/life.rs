use vstd::prelude::*;

use crate::grid::{Grid, fits};
use crate::window::{fold_window, fold_row};

verus! {

/// 1 if the cell `(i, j)` of the 3 by 3 window counts as living, else 0:
/// the window's middle row and middle column never count, and the cell is
/// read at `(i, j)` of the whole grid.
pub open spec fn counts(g: Seq<Seq<i32>>, i: int, j: int) -> int {
    if i != 1 && j != 1 && g[i][j] != 0 { 1 } else { 0 }
}

/// The count as a step over the cells of the window.
pub open spec fn count_step(g: Seq<Seq<i32>>) -> spec_fn(int, int, int) -> int {
    |acc: int, i: int, j: int| acc + counts(g, i, j)
}

/// How many of the grid cells `(0, 0)`, `(0, 2)`, `(2, 0)` and `(2, 2)`
/// are non-zero.
pub open spec fn corner_count(g: Seq<Seq<i32>>) -> int {
    (if g[0][0] != 0 { 1int } else { 0 }) + (if g[0][2] != 0 { 1int } else { 0 })
        + (if g[2][0] != 0 { 1int } else { 0 }) + (if g[2][2] != 0 { 1int } else { 0 })
}

/// The living count of the 3 by 3 window is the corner count.
proof fn lemma_window_count(g: Seq<Seq<i32>>)
    ensures
        fold_window(count_step(g), 0, 0, 3, 0, 3) == corner_count(g),
{
    let f = count_step(g);
    reveal_with_fuel(fold_row, 4);
    assert(fold_window(f, 0, 0, 0, 0, 3) == 0);
    assert(fold_window(f, 0, 0, 1, 0, 3) == counts(g, 0, 0) + counts(g, 0, 2));
    assert(fold_window(f, 0, 0, 2, 0, 3) == counts(g, 0, 0) + counts(g, 0, 2));
    assert(fold_window(f, 0, 0, 3, 0, 3) == counts(g, 0, 0) + counts(g, 0, 2) + counts(g, 2, 0) + counts(g, 2, 2));
}

/// The living neighbours counted for the inner cell `(ox, oy)`: the
/// window is the 3 by 3 block around the cell, but each window position
/// `(i, j)` is read at `(i, j)` of the grid and the middle row and column
/// are skipped, so the count is `corner_count` for every cell.
pub fn living_neighbours(grid: &Grid<i32>, ox: usize, oy: usize) -> (r: i32)
    requires
        1 <= ox,
        ox + 1 < grid.rows(),
        1 <= oy,
        oy + 1 < grid.cols(),
    ensures
        r == corner_count(grid@),
{
    let (rows, cols) = grid.shape();
    let ghost f = count_step(grid@);
    let mut acc: i32 = 0;
    let mut n_x: usize = 0;
    while n_x < 3
        invariant
            fits(grid@, (rows, cols)),
            rows == grid.rows(),
            cols == grid.cols(),
            3 <= rows,
            3 <= cols,
            f == count_step(grid@),
            n_x <= 3,
            acc == fold_window(f, 0, 0, n_x as int, 0, 3),
            0 <= acc <= 3 * n_x,
        decreases 3 - n_x,
    {
        let ghost row_start = acc as int;
        let mut n_y: usize = 0;
        while n_y < 3
            invariant
                fits(grid@, (rows, cols)),
                rows == grid.rows(),
                cols == grid.cols(),
                3 <= rows,
                3 <= cols,
                f == count_step(grid@),
                n_x < 3,
                n_y <= 3,
                acc == fold_row(f, row_start, n_x as int, 0, n_y as int),
                0 <= row_start <= 3 * n_x,
                row_start <= acc <= row_start + n_y,
            decreases 3 - n_y,
        {
            if n_x != 1 && n_y != 1 && grid.at(n_x, n_y) != 0 {
                acc = acc + 1;
            }
            n_y += 1;
        }
        n_x += 1;
    }
    proof {
        lemma_window_count(grid@);
    }
    acc
}

/// The next value of a cell with `living` living neighbours and present
/// value `current`: 0 below 2 or above 3, 1 at exactly 3, unchanged at 2.
pub open spec fn spec_next_state(living: int, current: i32) -> i32 {
    if living < 2 || living > 3 {
        0
    } else if living == 3 {
        1
    } else {
        current
    }
}

/// The life rule: the next value of a cell with `living` living neighbours
/// and present value `current`.
pub fn next_state(living: i32, current: i32) -> (r: i32)
    ensures
        r == spec_next_state(living as int, current),
{
    let mut v = current;
    if living < 2 || living > 3 {
        v = 0;
    }
    if living == 3 {
        v = 1;
    }
    v
}

/// Whether `(x, y)` is an inner cell of a grid of `rows` by `cols` cells.
pub open spec fn inner(x: int, y: int, rows: int, cols: int) -> bool {
    1 <= x < rows - 1 && 1 <= y < cols - 1
}

/// The next grid that `life_step` makes from the grid `g` and the next grid
/// `n`: every inner cell of `n` takes the rule's value for the corner count
/// of `g` and its own value; the border of `n` stays.
pub open spec fn spec_life_step(g: Seq<Seq<i32>>, n: Seq<Seq<i32>>) -> Seq<Seq<i32>> {
    Seq::new(n.len(), |x: int| Seq::new(n[x].len(), |y: int|
        if inner(x, y, n.len() as int, n[x].len() as int) {
            spec_next_state(corner_count(g), n[x][y])
        } else {
            n[x][y]
        }))
}

/// Whether `life_step` can run from a grid of `rows` by `cols` cells into a
/// next grid of `next_rows` by `next_cols` cells: both grids have at least
/// one row and one column (the inner region of each is taken), and when the
/// next grid has inner cells it is no larger than the grid.
pub open spec fn life_fits(rows: int, cols: int, next_rows: int, next_cols: int) -> bool {
    &&& 1 <= rows
    &&& 1 <= cols
    &&& 1 <= next_rows
    &&& 1 <= next_cols
    &&& (3 <= next_rows && 3 <= next_cols) ==> (next_rows <= rows && next_cols <= cols)
}

/// One life step: every inner cell of `next_grid` takes the rule's value
/// for the living neighbours counted on `grid` and its own present value.
pub fn life_step(grid: &Grid<i32>, next_grid: &mut Grid<i32>)
    requires
        life_fits(grid.rows() as int, grid.cols() as int, old(next_grid).rows() as int, old(next_grid).cols() as int),
    ensures
        final(next_grid).rows() == old(next_grid).rows(),
        final(next_grid).cols() == old(next_grid).cols(),
        final(next_grid)@ == spec_life_step(grid@, old(next_grid)@),
        forall|x: int, y: int| 0 <= x < old(next_grid).rows() && 0 <= y < old(next_grid).cols() ==> {
            &&& !inner(x, y, old(next_grid).rows() as int, old(next_grid).cols() as int)
                ==> #[trigger] final(next_grid)@[x][y] == old(next_grid)@[x][y]
            &&& final(next_grid)@[x][y] == 0 || final(next_grid)@[x][y] == 1
                || final(next_grid)@[x][y] == old(next_grid)@[x][y]
            &&& 1 <= x < old(next_grid).rows() - 1 && 1 <= y < old(next_grid).cols() - 1 ==>
                final(next_grid)@[x][y] == if corner_count(grid@) < 2 || corner_count(grid@) > 3 {
                    0
                } else if corner_count(grid@) == 3 {
                    1
                } else {
                    old(next_grid)@[x][y]
                }
        },
{
    let ghost n0 = next_grid@;
    let (rows, cols) = next_grid.shape();
    let ghost gr = grid.rows();
    let ghost gc = grid.cols();
    let mut x: usize = 1;
    while x + 1 < rows
        invariant
            life_fits(gr as int, gc as int, rows as int, cols as int),
            gr == grid.rows(),
            gc == grid.cols(),
            rows == next_grid.rows(),
            cols == next_grid.cols(),
            fits(n0, (rows, cols)),
            fits(next_grid@, (rows, cols)),
            1 <= x,
            x <= rows - 1 || x == 1,
            forall|a: int, b: int| 0 <= a < rows && 0 <= b < cols ==>
                #[trigger] next_grid@[a][b] == if a < x && inner(a, b, rows as int, cols as int) {
                    spec_next_state(corner_count(grid@), n0[a][b])
                } else {
                    n0[a][b]
                },
        decreases rows - x,
    {
        let mut y: usize = 1;
        while y + 1 < cols
            invariant
                life_fits(gr as int, gc as int, rows as int, cols as int),
                gr == grid.rows(),
                gc == grid.cols(),
                rows == next_grid.rows(),
                cols == next_grid.cols(),
                fits(n0, (rows, cols)),
                fits(next_grid@, (rows, cols)),
                1 <= x < rows - 1,
                1 <= y,
                y <= cols - 1 || y == 1,
                forall|a: int, b: int| 0 <= a < rows && 0 <= b < cols ==>
                    #[trigger] next_grid@[a][b] == if (a < x || (a == x && b < y)) && inner(a, b, rows as int, cols as int) {
                        spec_next_state(corner_count(grid@), n0[a][b])
                    } else {
                        n0[a][b]
                    },
            decreases cols - y,
        {
            let living = living_neighbours(grid, x, y);
            let cur = next_grid.at(x, y);
            let v = next_state(living, cur);
            next_grid.put(x, y, v);
            y += 1;
        }
        x += 1;
    }
    assert(next_grid@ =~~= spec_life_step(grid@, n0));
    proof {
        lemma_life_step_rule(grid@, n0, rows, cols);
    }
}

/// With the grid fixed, a second step changes nothing: the rule keeps a
/// value it has just given for the same count.
pub proof fn lemma_life_step_idempotent(g: Seq<Seq<i32>>, n: Seq<Seq<i32>>)
    ensures
        spec_life_step(g, spec_life_step(g, n)) == spec_life_step(g, n),
{
    let once = spec_life_step(g, n);
    let twice = spec_life_step(g, once);
    assert(twice =~~= once);
}

/// A grid and a next grid that are zero everywhere stay zero everywhere.
pub proof fn lemma_life_zero_stable(g: Seq<Seq<i32>>, n: Seq<Seq<i32>>, rows: usize, cols: usize, next_rows: usize, next_cols: usize)
    requires
        fits(g, (rows, cols)),
        fits(n, (next_rows, next_cols)),
        life_fits(rows as int, cols as int, next_rows as int, next_cols as int),
        forall|i: int, j: int| 0 <= i < rows && 0 <= j < cols ==> #[trigger] g[i][j] == 0,
        forall|i: int, j: int| 0 <= i < next_rows && 0 <= j < next_cols ==> #[trigger] n[i][j] == 0,
    ensures
        spec_life_step(g, n) == n,
{
    let r = spec_life_step(g, n);
    if 3 <= next_rows && 3 <= next_cols {
        assert(g[0][0] == 0 && g[0][2] == 0 && g[2][0] == 0 && g[2][2] == 0);
        assert(corner_count(g) == 0);
    }
    assert forall|x: int| 0 <= x < n.len() implies #[trigger] r[x] =~= n[x] by {
        assert(n[x].len() == next_cols);
        assert forall|y: int| 0 <= y < n[x].len() implies r[x][y] == n[x][y] by {
            if inner(x, y, next_rows as int, next_cols as int) {
                assert(n[x][y] == 0);
            }
        }
    }
    assert(r =~= n);
}

/// Whether `life_step` can run from `grid` into `next_grid` (`life_fits`).
pub fn can_step(grid: &Grid<i32>, next_grid: &Grid<i32>) -> (r: bool)
    ensures
        r == life_fits(grid.rows() as int, grid.cols() as int, next_grid.rows() as int, next_grid.cols() as int),
{
    let (rows, cols) = grid.shape();
    let (next_rows, next_cols) = next_grid.shape();
    1 <= rows && 1 <= cols && 1 <= next_rows && 1 <= next_cols
        && (!(3 <= next_rows && 3 <= next_cols) || (next_rows <= rows && next_cols <= cols))
}

/// What a life step gives each cell of a next grid of `rows` by `cols`
/// cells: every inner cell, in every inner row and column, becomes 0 when
/// the corner count is below 2 or above 3, 1 when it is 3, and keeps its
/// value when it is 2; every other cell keeps its value.
pub proof fn lemma_life_step_rule(g: Seq<Seq<i32>>, n: Seq<Seq<i32>>, rows: usize, cols: usize)
    requires
        fits(n, (rows, cols)),
    ensures
        spec_life_step(g, n).len() == rows,
        forall|x: int, y: int| 0 <= x < rows && 0 <= y < cols ==> {
            &&& (#[trigger] spec_life_step(g, n)[x][y]) == if 1 <= x < rows - 1 && 1 <= y < cols - 1 {
                if corner_count(g) < 2 || corner_count(g) > 3 {
                    0
                } else if corner_count(g) == 3 {
                    1
                } else {
                    n[x][y]
                }
            } else {
                n[x][y]
            }
            &&& spec_life_step(g, n)[x].len() == cols
        },
{
    assert forall|x: int, y: int| 0 <= x < rows && 0 <= y < cols implies {
        &&& (#[trigger] spec_life_step(g, n)[x][y]) == if 1 <= x < rows - 1 && 1 <= y < cols - 1 {
            if corner_count(g) < 2 || corner_count(g) > 3 {
                0
            } else if corner_count(g) == 3 {
                1
            } else {
                n[x][y]
            }
        } else {
            n[x][y]
        }
        &&& spec_life_step(g, n)[x].len() == cols
    } by {
        assert(n[x].len() == cols);
    }
}

/// The corner count lies between 0 and 4: it is 0 exactly when the four
/// cells `(0, 0)`, `(0, 2)`, `(2, 0)` and `(2, 2)` are all zero, and 4
/// exactly when none of them is; a change to any other cell leaves it as
/// it was.
pub proof fn lemma_corner_count_laws(g: Seq<Seq<i32>>, h: Seq<Seq<i32>>)
    ensures
        0 <= corner_count(g) <= 4,
        corner_count(g) == 0 <==> (g[0][0] == 0 && g[0][2] == 0 && g[2][0] == 0 && g[2][2] == 0),
        corner_count(g) == 4 <==> (g[0][0] != 0 && g[0][2] != 0 && g[2][0] != 0 && g[2][2] != 0),
        g[0][0] == h[0][0] && g[0][2] == h[0][2] && g[2][0] == h[2][0] && g[2][2] == h[2][2]
            ==> corner_count(g) == corner_count(h),
{
}

} // verus!
