use vstd::prelude::*;

use crate::block::{Block, BlockType, ItemType, with_item, same_layout, is_container, no_hoppers, no_items, near,
    holds_item, item_count, lemma_item_count_two};
use crate::grid::{Grid, fits, set_cell};
use crate::window::{clamp, fold_window, fold_row, keeps_on, lemma_fold_window_keeps, lemma_fold_window_still,
    lemma_fold_window_single};

verus! {

/// The side of the square grid the sequential hopper simulation is laid
/// out for.
pub const N: usize = 6;

/// `coord` clamped to a grid coordinate in `0 ..= N - 1`.
pub open spec fn spec_bgc(coord: int) -> int {
    clamp(coord, N as int)
}

/// Bounded grid coordinate: `coord` clamped to `0 ..= N - 1`.
pub fn bgc(coord: i32) -> (r: i32)
    ensures
        r == spec_bgc(coord as int),
        0 <= r < N,
        0 <= coord < N ==> r == coord,
        coord < 0 ==> r == 0,
        coord >= N ==> r == N - 1,
{
    (N as i32 - 1).min(0i32.max(coord))
}

/// Whether `b` points at `(x, y)`.
pub open spec fn points_at(b: Block, x: int, y: int) -> bool {
    b.direction_x == x && b.direction_y == y
}

/// The row of the grid that the hopper at row `x` reads for the `i`-th row
/// of its window: the row's offset in the window plus `x - 1`.
pub open spec fn read_row(x: int, i: int) -> int {
    i - spec_bgc(x - 1) + x - 1
}

/// Whether the hopper `this` pushes its item into the block `nb` read at
/// `(cx, cy)`: `nb` is an empty chest that the full hopper points at.
pub open spec fn push_fires(this: Block, nb: Block, cx: int, cy: int) -> bool {
    &&& nb.block_type == BlockType::Chest
    &&& points_at(this, cx, cy)
    &&& nb.item_type == ItemType::Empty
    &&& this.item_type != ItemType::Empty
}

/// Whether the hopper `this` pulls the item of the block `nb` read at
/// `(cx, cy)`: `nb` is a full chest that the empty hopper does not point at.
pub open spec fn pull_fires(this: Block, nb: Block, cx: int, cy: int) -> bool {
    &&& nb.block_type == BlockType::Chest
    &&& !points_at(this, cx, cy)
    &&& nb.item_type != ItemType::Empty
    &&& this.item_type == ItemType::Empty
}

/// A transfer made by a hopper.
#[derive(Clone, Copy, Debug, PartialEq, Eq, Structural)]
pub enum Transfer {
    /// A hopper put its item into an empty chest.
    Inserted,
    /// A hopper pulled the item of a full chest.
    Pulled,
}

/// `n` after the chest at `(cx, cy)` is given the item `to_chest` and then
/// the hopper at `(x, y)` the item `to_hopper`.
pub open spec fn exchange_items(
    n: Seq<Seq<Block>>,
    cx: int,
    cy: int,
    x: int,
    y: int,
    to_chest: ItemType,
    to_hopper: ItemType,
) -> Seq<Seq<Block>> {
    let a = set_cell(n, cx, cy, with_item(n[cx][cy], to_chest));
    set_cell(a, x, y, with_item(a[x][y], to_hopper))
}

/// The transfers of the hopper `this` at `(x, y)` of the grid `g` as a step
/// over the cells `(i, j)` of its window, acting on the next grid: the
/// block read is the one at `(read_row(x, i), read_row(y, j))`; a push moves
/// the hopper's item into that chest and empties the hopper, a pull moves
/// the chest's item into the hopper and empties the chest.
pub open spec fn transfer_step(g: Seq<Seq<Block>>, this: Block, x: int, y: int)
    -> spec_fn(Seq<Seq<Block>>, int, int) -> Seq<Seq<Block>> {
    |acc: Seq<Seq<Block>>, i: int, j: int| {
        let cx = read_row(x, i);
        let cy = read_row(y, j);
        let nb = g[cx][cy];
        let pushed = if push_fires(this, nb, cx, cy) {
            exchange_items(acc, cx, cy, x, y, this.item_type, ItemType::Empty)
        } else {
            acc
        };
        if pull_fires(this, nb, cx, cy) {
            exchange_items(pushed, cx, cy, x, y, ItemType::Empty, nb.item_type)
        } else {
            pushed
        }
    }
}

/// The reports of the transfers of `transfer_step`, as a step over the
/// cells of the window acting on the log: a push, then a pull.
pub open spec fn transfer_log_step(g: Seq<Seq<Block>>, this: Block, x: int, y: int)
    -> spec_fn(Seq<Transfer>, int, int) -> Seq<Transfer> {
    |acc: Seq<Transfer>, i: int, j: int| {
        let cx = read_row(x, i);
        let cy = read_row(y, j);
        let nb = g[cx][cy];
        let pushed = if push_fires(this, nb, cx, cy) { acc.push(Transfer::Inserted) } else { acc };
        if pull_fires(this, nb, cx, cy) { pushed.push(Transfer::Pulled) } else { pushed }
    }
}

/// `log` with the transfers that the block `this` at `(x, y)` of the grid
/// `g` makes appended, in the order of `spec_update`.
pub open spec fn spec_update_log(this: Block, x: int, y: int, g: Seq<Seq<Block>>, log: Seq<Transfer>) -> Seq<Transfer> {
    if this.block_type == BlockType::Hopper {
        fold_window(
            transfer_log_step(g, this, x, y),
            log,
            spec_bgc(x - 1),
            spec_bgc(x + 1) + 1,
            spec_bgc(y - 1),
            spec_bgc(y + 1) + 1,
        )
    } else {
        log
    }
}

/// The next grid after the block `this` at `(x, y)` of the grid `g` acts on
/// the next grid `n`: a hopper makes the transfers of `transfer_step` over
/// its clamped 3 by 3 window, row by row; other blocks do nothing.
pub open spec fn spec_update(this: Block, x: int, y: int, g: Seq<Seq<Block>>, n: Seq<Seq<Block>>) -> Seq<Seq<Block>> {
    if this.block_type == BlockType::Hopper {
        fold_window(
            transfer_step(g, this, x, y),
            n,
            spec_bgc(x - 1),
            spec_bgc(x + 1) + 1,
            spec_bgc(y - 1),
            spec_bgc(y + 1) + 1,
        )
    } else {
        n
    }
}

/// Whether a hopper at `(x, y)` of a grid of `rows` by `cols` cells can run:
/// its window lies inside the grid, every block it reads lies inside the
/// grid, and its coordinates leave room in `i32`.
pub open spec fn hopper_fits(x: int, y: int, rows: int, cols: int) -> bool {
    &&& i32::MIN < x < i32::MAX
    &&& i32::MIN < y < i32::MAX
    &&& spec_bgc(x + 1) < rows
    &&& spec_bgc(y + 1) < cols
    &&& 0 <= read_row(x, spec_bgc(x - 1))
    &&& read_row(x, spec_bgc(x + 1)) < rows
    &&& 0 <= read_row(y, spec_bgc(y - 1))
    &&& read_row(y, spec_bgc(y + 1)) < cols
}

/// Whether the hopper `this` at `(x, y)` of the grid `g` makes a transfer
/// with the block it reads for the window cell `(i, j)`.
pub open spec fn fires_at(g: Seq<Seq<Block>>, this: Block, x: int, y: int, i: int, j: int) -> bool {
    let cx = read_row(x, i);
    let cy = read_row(y, j);
    push_fires(this, g[cx][cy], cx, cy) || pull_fires(this, g[cx][cy], cx, cy)
}

/// Whether `update` can run for the block `this` at `(x, y)` of the grid
/// `g` (`rows` by `cols` cells) on a next grid of `next_rows` by
/// `next_cols` cells: a hopper must fit (`hopper_fits`), and every transfer
/// it makes must write inside the next grid.
pub open spec fn update_fits(
    this: Block,
    x: int,
    y: int,
    g: Seq<Seq<Block>>,
    rows: int,
    cols: int,
    next_rows: int,
    next_cols: int,
) -> bool {
    this.block_type == BlockType::Hopper ==> {
        &&& hopper_fits(x, y, rows, cols)
        &&& forall|i: int, j: int|
            spec_bgc(x - 1) <= i <= spec_bgc(x + 1) && spec_bgc(y - 1) <= j <= spec_bgc(y + 1)
                && #[trigger] fires_at(g, this, x, y, i, j) ==> {
                &&& read_row(x, i) < next_rows
                &&& read_row(y, j) < next_cols
                &&& x < next_rows
                &&& y < next_cols
            }
    }
}

/// Applies `spec_update` for the block `this` at `(x, y)` of `grid` to
/// `next_grid`, and appends the transfers it makes to `log`.
pub fn update(this: &Block, x: i32, y: i32, grid: &Grid<Block>, next_grid: &mut Grid<Block>, log: &mut Vec<Transfer>)
    requires
        update_fits(*this, x as int, y as int, grid@, grid.rows() as int, grid.cols() as int,
            old(next_grid).rows() as int, old(next_grid).cols() as int),
    ensures
        final(next_grid).rows() == old(next_grid).rows(),
        final(next_grid).cols() == old(next_grid).cols(),
        final(next_grid)@ == spec_update(*this, x as int, y as int, grid@, old(next_grid)@),
        fits(old(next_grid)@, (old(next_grid).rows() as usize, old(next_grid).cols() as usize))
            ==> fits(final(next_grid)@, (old(next_grid).rows() as usize, old(next_grid).cols() as usize)),
        final(log)@ == spec_update_log(*this, x as int, y as int, grid@, old(log)@),
{
    match this.block_type {
        BlockType::Hopper => {
            let (rows, cols) = grid.shape();
            let (next_rows, next_cols) = next_grid.shape();
            let ghost start = next_grid@;
            let ghost f = transfer_step(grid@, *this, x as int, y as int);
            let ghost lstart = log@;
            let ghost lf = transfer_log_step(grid@, *this, x as int, y as int);
            let r0 = bgc(x - 1);
            let r1 = bgc(x + 1);
            let c0 = bgc(y - 1);
            let c1 = bgc(y + 1);
            let mut i = r0;
            while i <= r1
                invariant
                    fits(grid@, (rows, cols)),
                    rows == grid.rows(),
                    cols == grid.cols(),
                    next_rows == next_grid.rows(),
                    next_cols == next_grid.cols(),
                    fits(next_grid@, (next_rows, next_cols)),
                    update_fits(*this, x as int, y as int, grid@, rows as int, cols as int, next_rows as int, next_cols as int),
                    this.block_type == BlockType::Hopper,
                    f == transfer_step(grid@, *this, x as int, y as int),
                    r0 == spec_bgc(x - 1),
                    r1 == spec_bgc(x + 1),
                    c0 == spec_bgc(y - 1),
                    c1 == spec_bgc(y + 1),
                    r0 <= i <= r1 + 1,
                    next_grid@ == fold_window(f, start, r0 as int, i as int, c0 as int, c1 + 1),
                    lf == transfer_log_step(grid@, *this, x as int, y as int),
                    log@ == fold_window(lf, lstart, r0 as int, i as int, c0 as int, c1 + 1),
                decreases r1 + 1 - i,
            {
                let ghost row_start = next_grid@;
                let ghost log_start = log@;
                let mut j = c0;
                while j <= c1
                    invariant
                        fits(grid@, (rows, cols)),
                        rows == grid.rows(),
                        cols == grid.cols(),
                        next_rows == next_grid.rows(),
                        next_cols == next_grid.cols(),
                        fits(next_grid@, (next_rows, next_cols)),
                        update_fits(*this, x as int, y as int, grid@, rows as int, cols as int, next_rows as int, next_cols as int),
                        this.block_type == BlockType::Hopper,
                        f == transfer_step(grid@, *this, x as int, y as int),
                        r0 == spec_bgc(x - 1),
                        r1 == spec_bgc(x + 1),
                        c0 == spec_bgc(y - 1),
                        c1 == spec_bgc(y + 1),
                        r0 <= i <= r1,
                        c0 <= j <= c1 + 1,
                        next_grid@ == fold_row(f, row_start, i as int, c0 as int, j as int),
                        lf == transfer_log_step(grid@, *this, x as int, y as int),
                        log@ == fold_row(lf, log_start, i as int, c0 as int, j as int),
                    decreases c1 + 1 - j,
                {
                    let cnx = (i - r0) + x - 1;
                    let cny = (j - c0) + y - 1;
                    let neighbour = grid.at(cnx as usize, cny as usize);
                    let ghost before = next_grid@;
                    let ghost log_before = log@;
                    assert(fires_at(grid@, *this, x as int, y as int, i as int, j as int)
                        ==> cnx < next_rows && cny < next_cols && x < next_rows && y < next_cols);
                    match neighbour.block_type {
                        BlockType::Chest => {
                            if this.direction_x == cnx && this.direction_y == cny
                                && neighbour.item_type == ItemType::Empty {
                                if this.item_type != ItemType::Empty {
                                    log.push(Transfer::Inserted);
                                    let mut nv = next_grid.at(cnx as usize, cny as usize);
                                    nv.item_type = this.item_type;
                                    next_grid.put(cnx as usize, cny as usize, nv);
                                    let mut nxtv = next_grid.at(x as usize, y as usize);
                                    nxtv.item_type = ItemType::Empty;
                                    next_grid.put(x as usize, y as usize, nxtv);
                                }
                            }
                            if (this.direction_x != cnx || this.direction_y != cny)
                                && neighbour.item_type != ItemType::Empty {
                                if this.item_type == ItemType::Empty {
                                    log.push(Transfer::Pulled);
                                    let mut nv = next_grid.at(cnx as usize, cny as usize);
                                    nv.item_type = ItemType::Empty;
                                    next_grid.put(cnx as usize, cny as usize, nv);
                                    let mut nxtv = next_grid.at(x as usize, y as usize);
                                    nxtv.item_type = neighbour.item_type;
                                    next_grid.put(x as usize, y as usize, nxtv);
                                }
                            }
                        },
                        _ => {},
                    }
                    assert(next_grid@ =~~= f(before, i as int, j as int));
                    assert(log@ =~= lf(log_before, i as int, j as int));
                    j += 1;
                }
                i += 1;
            }
        },
        _ => {},
    }
}

/// `n` with every cell that `g` also has replaced by the block of `g`.
pub open spec fn copy_into(g: Seq<Seq<Block>>, n: Seq<Seq<Block>>) -> Seq<Seq<Block>> {
    Seq::new(n.len(), |a: int| Seq::new(n[a].len(), |b: int|
        if a < g.len() && b < g[a].len() { g[a][b] } else { n[a][b] }))
}

/// The update of every cell `(x, y)` of the grid `g` as a step over the
/// cells, acting on the next grid.
pub open spec fn update_step(g: Seq<Seq<Block>>) -> spec_fn(Seq<Seq<Block>>, int, int) -> Seq<Seq<Block>> {
    |acc: Seq<Seq<Block>>, x: int, y: int| spec_update(g[x][y], x, y, g, acc)
}

/// The next grid that `step` makes from the grid `g` of `rows` by `cols`
/// cells and the next grid `n`: `g` copied into `n`, then the update of
/// every cell of `g`, row by row.
pub open spec fn spec_step(g: Seq<Seq<Block>>, rows: int, cols: int, n: Seq<Seq<Block>>) -> Seq<Seq<Block>> {
    fold_window(update_step(g), copy_into(g, n), 0, rows, 0, cols)
}

/// The transfers of every cell `(x, y)` of the grid `g` as a step over the
/// cells, acting on the log.
pub open spec fn update_log_step(g: Seq<Seq<Block>>) -> spec_fn(Seq<Transfer>, int, int) -> Seq<Transfer> {
    |acc: Seq<Transfer>, x: int, y: int| spec_update_log(g[x][y], x, y, g, acc)
}

/// `log` with the transfers that `step` makes from the grid `g` of `rows`
/// by `cols` cells appended: those of each cell, row by row.
pub open spec fn spec_step_log(g: Seq<Seq<Block>>, rows: int, cols: int, log: Seq<Transfer>) -> Seq<Transfer> {
    fold_window(update_log_step(g), log, 0, rows, 0, cols)
}

/// Whether `step` can run from the grid `g` of `rows` by `cols` cells into
/// a next grid of `next_rows` by `next_cols` cells: a grid without cells
/// always can; otherwise the next grid is at least as large, the
/// coordinates fit in `i32`, and every hopper of the grid fits
/// (`hopper_fits`).
pub open spec fn step_fits(g: Seq<Seq<Block>>, rows: int, cols: int, next_rows: int, next_cols: int) -> bool {
    rows > 0 && cols > 0 ==> {
        &&& rows <= next_rows
        &&& cols <= next_cols
        &&& rows <= i32::MAX
        &&& cols <= i32::MAX
        &&& forall|x: int, y: int| 0 <= x < rows && 0 <= y < cols && (#[trigger] g[x][y]).block_type
            == BlockType::Hopper ==> hopper_fits(x, y, rows, cols)
    }
}

/// One step of the sequential hopper simulation: `grid` is copied into
/// `next_grid`, then every block of `grid`, row by row, makes its transfers
/// in `next_grid`.
pub fn step(grid: &Grid<Block>, next_grid: &mut Grid<Block>, log: &mut Vec<Transfer>)
    requires
        step_fits(grid@, grid.rows() as int, grid.cols() as int, old(next_grid).rows() as int, old(next_grid).cols() as int),
    ensures
        final(next_grid).rows() == old(next_grid).rows(),
        final(next_grid).cols() == old(next_grid).cols(),
        final(next_grid)@ == spec_step(grid@, grid.rows() as int, grid.cols() as int, old(next_grid)@),
        forall|x: int, y: int| 0 <= x < grid.rows() && 0 <= y < grid.cols() ==> {
            &&& same_layout(#[trigger] final(next_grid)@[x][y], grid@[x][y])
            &&& !is_container(grid@[x][y]) ==> final(next_grid)@[x][y] == grid@[x][y]
            &&& no_hoppers(grid@) || no_items(grid@) ==> final(next_grid)@[x][y] == grid@[x][y]
            &&& grid@[x][y].block_type == BlockType::Chest && !hopper_near(grid@, x, y, grid.rows() as int, grid.cols() as int)
                ==> final(next_grid)@[x][y] == grid@[x][y]
        },
        forall|x: int, y: int| 0 <= x < old(next_grid).rows() && 0 <= y < old(next_grid).cols()
            && !(x < grid.rows() && y < grid.cols()) ==> #[trigger] final(next_grid)@[x][y] == old(next_grid)@[x][y],
        final(log)@ == spec_step_log(grid@, grid.rows() as int, grid.cols() as int, old(log)@),
{
    let ghost n0 = next_grid@;
    let ghost log0 = log@;
    let (rows, cols) = grid.shape();
    let (next_rows, next_cols) = next_grid.shape();
    let mut x: usize = 0;
    while x < rows
        invariant
            step_fits(grid@, rows as int, cols as int, next_rows as int, next_cols as int),
            fits(grid@, (rows, cols)),
            rows == grid.rows(),
            cols == grid.cols(),
            next_rows == next_grid.rows(),
            next_cols == next_grid.cols(),
            fits(n0, (next_rows, next_cols)),
            fits(next_grid@, (next_rows, next_cols)),
            x <= rows,
            forall|a: int, b: int| 0 <= a < next_rows && 0 <= b < next_cols ==>
                #[trigger] next_grid@[a][b] == if a < x && b < cols { grid@[a][b] } else { n0[a][b] },
        decreases rows - x,
    {
        let mut y: usize = 0;
        while y < cols
            invariant
                step_fits(grid@, rows as int, cols as int, next_rows as int, next_cols as int),
                fits(grid@, (rows, cols)),
                rows == grid.rows(),
                cols == grid.cols(),
                next_rows == next_grid.rows(),
                next_cols == next_grid.cols(),
                fits(n0, (next_rows, next_cols)),
                fits(next_grid@, (next_rows, next_cols)),
                x < rows,
                y <= cols,
                forall|a: int, b: int| 0 <= a < next_rows && 0 <= b < next_cols ==>
                    #[trigger] next_grid@[a][b] == if (a < x && b < cols) || (a == x && b < y) {
                        grid@[a][b]
                    } else {
                        n0[a][b]
                    },
            decreases cols - y,
        {
            let cv = grid.at(x, y);
            next_grid.put(x, y, cv);
            y += 1;
        }
        x += 1;
    }
    assert(next_grid@ =~~= copy_into(grid@, n0));
    let ghost copied = next_grid@;
    let ghost f = update_step(grid@);
    let ghost lf = update_log_step(grid@);
    let mut x: usize = 0;
    while x < rows
        invariant
            step_fits(grid@, rows as int, cols as int, next_rows as int, next_cols as int),
            fits(grid@, (rows, cols)),
            rows == grid.rows(),
            cols == grid.cols(),
            next_rows == next_grid.rows(),
            next_cols == next_grid.cols(),
            fits(next_grid@, (next_rows, next_cols)),
            f == update_step(grid@),
            x <= rows,
            next_grid@ == fold_window(f, copied, 0, x as int, 0, cols as int),
            lf == update_log_step(grid@),
            log@ == fold_window(lf, log0, 0, x as int, 0, cols as int),
        decreases rows - x,
    {
        let ghost row_start = next_grid@;
        let ghost log_start = log@;
        let mut y: usize = 0;
        while y < cols
            invariant
                step_fits(grid@, rows as int, cols as int, next_rows as int, next_cols as int),
                fits(grid@, (rows, cols)),
                rows == grid.rows(),
                cols == grid.cols(),
                next_rows == next_grid.rows(),
                next_cols == next_grid.cols(),
                fits(next_grid@, (next_rows, next_cols)),
                f == update_step(grid@),
                x < rows,
                y <= cols,
                next_grid@ == fold_row(f, row_start, x as int, 0, y as int),
                lf == update_log_step(grid@),
                log@ == fold_row(lf, log_start, x as int, 0, y as int),
            decreases cols - y,
        {
            let cv = grid.at(x, y);
            assert(cv.block_type == BlockType::Hopper ==> hopper_fits(x as int, y as int, rows as int, cols as int));
            update(&cv, x as i32, y as i32, grid, next_grid, log);
            y += 1;
        }
        x += 1;
    }
    proof {
        lemma_step_laws(grid@, rows, cols, n0, next_rows, next_cols);
        let base = copy_into(grid@, n0);
        assert forall|a: int, b: int| 0 <= a < rows && 0 <= b < cols implies {
            &&& same_layout(next_grid@[a][b], grid@[a][b])
            &&& !is_container(grid@[a][b]) ==> next_grid@[a][b] == grid@[a][b]
            &&& no_hoppers(grid@) || no_items(grid@) ==> next_grid@[a][b] == grid@[a][b]
            &&& grid@[a][b].block_type == BlockType::Chest && !hopper_near(grid@, a, b, rows as int, cols as int)
                ==> next_grid@[a][b] == grid@[a][b]
        } by {
            assert(grid@[a].len() == cols);
            assert(base[a][b] == grid@[a][b]);
        }
        assert forall|a: int, b: int| 0 <= a < next_rows && 0 <= b < next_cols
            && !(a < rows && b < cols) implies next_grid@[a][b] == n0[a][b] by {
            if a < rows {
                assert(grid@[a].len() == cols);
            }
            assert(base[a][b] == n0[a][b]);
        }
    }
}

/// Whether a hopper of the grid `g` (of `rows` by `cols` cells) stands at
/// `(a, b)` or next to it.
pub open spec fn hopper_near(g: Seq<Seq<Block>>, a: int, b: int, rows: int, cols: int) -> bool {
    exists|p: int, q: int| 0 <= p < rows && 0 <= q < cols && near(a, b, p, q)
        && (#[trigger] g[p][q]).block_type == BlockType::Hopper
}

/// Whether a step may write the cell `(a, b)` of the grid `g`: it is a
/// hopper, or a chest with a hopper next to it.
pub open spec fn may_change(g: Seq<Seq<Block>>, a: int, b: int, rows: int, cols: int) -> bool {
    ||| g[a][b].block_type == BlockType::Hopper
    ||| g[a][b].block_type == BlockType::Chest && hopper_near(g, a, b, rows, cols)
}

/// What the transfers of a step keep of the next grid `acc`, started from
/// `base`: its shape; the block type and direction of every cell; the whole
/// block of every cell that a step may not write (`may_change`) of the grid
/// `g` (of `rows` by `cols` cells); and, when `quiet`, all of `base`.
pub open spec fn kept(
    g: Seq<Seq<Block>>,
    base: Seq<Seq<Block>>,
    rows: int,
    cols: int,
    next_rows: usize,
    next_cols: usize,
    quiet: bool,
) -> spec_fn(Seq<Seq<Block>>) -> bool {
    |acc: Seq<Seq<Block>>| {
        &&& fits(acc, (next_rows, next_cols))
        &&& forall|a: int, b: int| 0 <= a < next_rows && 0 <= b < next_cols ==> {
            &&& same_layout(#[trigger] acc[a][b], base[a][b])
            &&& !(a < rows && b < cols && may_change(g, a, b, rows, cols)) ==> acc[a][b] == base[a][b]
        }
        &&& quiet ==> acc == base
    }
}

/// One exchange of items between two cells that a step may write keeps
/// `kept`.
proof fn lemma_exchange_kept(
    g: Seq<Seq<Block>>,
    base: Seq<Seq<Block>>,
    rows: int,
    cols: int,
    next_rows: usize,
    next_cols: usize,
    acc: Seq<Seq<Block>>,
    cx: int,
    cy: int,
    x: int,
    y: int,
    to_chest: ItemType,
    to_hopper: ItemType,
)
    requires
        kept(g, base, rows, cols, next_rows, next_cols, false)(acc),
        rows <= next_rows,
        cols <= next_cols,
        0 <= cx < rows,
        0 <= cy < cols,
        0 <= x < rows,
        0 <= y < cols,
        may_change(g, cx, cy, rows, cols),
        may_change(g, x, y, rows, cols),
    ensures
        kept(g, base, rows, cols, next_rows, next_cols, false)(exchange_items(acc, cx, cy, x, y, to_chest, to_hopper)),
{
    let a1 = set_cell(acc, cx, cy, with_item(acc[cx][cy], to_chest));
    let a2 = exchange_items(acc, cx, cy, x, y, to_chest, to_hopper);
    assert(acc[cx].len() == next_cols);
    assert(fits(a1, (next_rows, next_cols)));
    assert forall|a: int, b: int| 0 <= a < next_rows && 0 <= b < next_cols implies
        #[trigger] a1[a][b] == if a == cx && b == cy { with_item(acc[cx][cy], to_chest) } else { acc[a][b] } by {
    }
    assert(a1[x].len() == next_cols);
    assert forall|a: int, b: int| 0 <= a < next_rows && 0 <= b < next_cols implies
        #[trigger] a2[a][b] == if a == x && b == y { with_item(a1[x][y], to_hopper) } else { a1[a][b] } by {
    }
}

/// The transfers of one cell keep `kept`, when every hopper of the grid
/// fits and `quiet` means the grid has no hopper or no item.
proof fn lemma_update_kept(
    g: Seq<Seq<Block>>,
    base: Seq<Seq<Block>>,
    rows: usize,
    cols: usize,
    next_rows: usize,
    next_cols: usize,
    quiet: bool,
    acc: Seq<Seq<Block>>,
    x: int,
    y: int,
)
    requires
        fits(g, (rows, cols)),
        step_fits(g, rows as int, cols as int, next_rows as int, next_cols as int),
        0 <= x < rows,
        0 <= y < cols,
        quiet ==> no_hoppers(g) || no_items(g),
        kept(g, base, rows as int, cols as int, next_rows, next_cols, quiet)(acc),
    ensures
        kept(g, base, rows as int, cols as int, next_rows, next_cols, quiet)(spec_update(g[x][y], x, y, g, acc)),
{
    let this = g[x][y];
    assert(g[x].len() == cols);
    if this.block_type == BlockType::Hopper {
        assert(hopper_fits(x, y, rows as int, cols as int));
        let p = kept(g, base, rows as int, cols as int, next_rows, next_cols, quiet);
        let f = transfer_step(g, this, x, y);
        let r0 = spec_bgc(x - 1);
        let r_end = spec_bgc(x + 1) + 1;
        let c0 = spec_bgc(y - 1);
        let c_end = spec_bgc(y + 1) + 1;
        assert(keeps_on(f, p, r0, r_end, c0, c_end)) by {
            assert forall|a: Seq<Seq<Block>>, i: int, j: int|
                r0 <= i < r_end && c0 <= j < c_end && p(a) implies #[trigger] p(f(a, i, j)) by {
                let cx = read_row(x, i);
                let cy = read_row(y, j);
                assert(0 <= cx < rows && 0 <= cy < cols);
                assert(g[cx].len() == cols);
                let nb = g[cx][cy];
                assert(near(cx, cy, x, y));
                assert(nb.block_type == BlockType::Chest ==> may_change(g, cx, cy, rows as int, cols as int)) by {
                    assert(g[x][y].block_type == BlockType::Hopper);
                }
                if no_hoppers(g) {
                    assert(this.block_type != BlockType::Hopper);
                }
                if no_items(g) {
                    assert(nb.item_type == ItemType::Empty);
                    assert(this.item_type == ItemType::Empty);
                }
                let pushed = if push_fires(this, nb, cx, cy) {
                    exchange_items(a, cx, cy, x, y, this.item_type, ItemType::Empty)
                } else {
                    a
                };
                let q = kept(g, base, rows as int, cols as int, next_rows, next_cols, false);
                assert(q(a));
                if push_fires(this, nb, cx, cy) {
                    lemma_exchange_kept(g, base, rows as int, cols as int, next_rows, next_cols, a, cx, cy, x, y,
                        this.item_type, ItemType::Empty);
                }
                assert(q(pushed));
                if pull_fires(this, nb, cx, cy) {
                    lemma_exchange_kept(g, base, rows as int, cols as int, next_rows, next_cols, pushed, cx, cy, x, y,
                        ItemType::Empty, nb.item_type);
                }
                assert(q(f(a, i, j)));
            }
        }
        lemma_fold_window_keeps(f, p, acc, r0, r_end, c0, c_end);
    }
}

/// What `step` keeps, for a grid whose hoppers fit: the next grid's shape;
/// the block type and direction of every cell of the grid copied in; the
/// copied block of every cell that is not a chest or hopper of the grid, and
/// of every cell beyond the grid; and all of the copy when the grid has no
/// hopper or holds no item.
pub proof fn lemma_step_laws(g: Seq<Seq<Block>>, rows: usize, cols: usize, n: Seq<Seq<Block>>, next_rows: usize, next_cols: usize)
    requires
        fits(g, (rows, cols)),
        fits(n, (next_rows, next_cols)),
        step_fits(g, rows as int, cols as int, next_rows as int, next_cols as int),
    ensures
        kept(g, copy_into(g, n), rows as int, cols as int, next_rows, next_cols, no_hoppers(g) || no_items(g))(
            spec_step(g, rows as int, cols as int, n)),
{
    let base = copy_into(g, n);
    let quiet = no_hoppers(g) || no_items(g);
    let p = kept(g, base, rows as int, cols as int, next_rows, next_cols, quiet);
    let f = update_step(g);
    assert(fits(base, (next_rows, next_cols)));
    assert(p(base));
    assert(keeps_on(f, p, 0, rows as int, 0, cols as int)) by {
        assert forall|a: Seq<Seq<Block>>, x: int, y: int|
            0 <= x < rows && 0 <= y < cols && p(a) implies #[trigger] p(f(a, x, y)) by {
            lemma_update_kept(g, base, rows, cols, next_rows, next_cols, quiet, a, x, y);
        }
    }
    lemma_fold_window_keeps(f, p, base, 0, rows as int, 0, cols as int);
}

/// Items are moved, never made or lost, by a step of a grid of at most
/// `N` by `N` cells into a next grid of the same shape, when the grid has a
/// single hopper (which `step_fits` keeps away from the first row and
/// column) with exactly one chest among its neighbours: the next grid holds
/// as many items as the grid.
#[verifier::rlimit(40)]
pub proof fn lemma_step_conserves_items(
    g: Seq<Seq<Block>>,
    n: Seq<Seq<Block>>,
    rows: usize,
    cols: usize,
    hx: int,
    hy: int,
    cx: int,
    cy: int,
)
    requires
        fits(g, (rows, cols)),
        fits(n, (rows, cols)),
        rows <= N,
        cols <= N,
        step_fits(g, rows as int, cols as int, rows as int, cols as int),
        0 <= hx < rows,
        0 <= hy < cols,
        g[hx][hy].block_type == BlockType::Hopper,
        forall|i: int, j: int| 0 <= i < rows && 0 <= j < cols && !(i == hx && j == hy)
            ==> (#[trigger] g[i][j]).block_type != BlockType::Hopper,
        0 <= cx < rows,
        0 <= cy < cols,
        near(cx, cy, hx, hy),
        !(cx == hx && cy == hy),
        g[cx][cy].block_type == BlockType::Chest,
        forall|i: int, j: int| 0 <= i < rows && 0 <= j < cols && near(i, j, hx, hy) && !(i == cx && j == cy)
            ==> (#[trigger] g[i][j]).block_type != BlockType::Chest,
    ensures
        item_count(spec_step(g, rows as int, cols as int, n), rows as int, cols as int)
            == item_count(g, rows as int, cols as int),
{
    let hop = g[hx][hy];
    let che = g[cx][cy];
    assert(hopper_fits(hx, hy, rows as int, cols as int));
    let base = copy_into(g, n);
    assert forall|a: int| 0 <= a < rows implies #[trigger] base[a] =~= g[a] by {
        assert(g[a].len() == cols);
        assert(n[a].len() == cols);
    }
    assert(base =~= g);
    // Only the hopper's cell acts.
    let uf = update_step(g);
    assert forall|a: Seq<Seq<Block>>, x: int, y: int| 0 <= x < rows && 0 <= y < cols && !(x == hx && y == hy)
        implies #[trigger] uf(a, x, y) == a by {
        assert(g[x].len() == cols);
    }
    lemma_fold_window_single(uf, base, 0, rows as int, 0, cols as int, hx, hy);
    // The hopper reads its window unshifted, and only its chest makes a transfer.
    assert(spec_bgc(hx - 1) == hx - 1);
    assert(spec_bgc(hy - 1) == hy - 1);
    let tf = transfer_step(g, hop, hx, hy);
    assert forall|a: Seq<Seq<Block>>, i: int, j: int|
        spec_bgc(hx - 1) <= i < spec_bgc(hx + 1) + 1 && spec_bgc(hy - 1) <= j < spec_bgc(hy + 1) + 1
            && !(i == cx && j == cy) implies #[trigger] tf(a, i, j) == a by {
        assert(read_row(hx, i) == i && read_row(hy, j) == j);
        assert(g[i].len() == cols);
    }
    lemma_fold_window_single(tf, base, spec_bgc(hx - 1), spec_bgc(hx + 1) + 1, spec_bgc(hy - 1),
        spec_bgc(hy + 1) + 1, cx, cy);
    let r = spec_step(g, rows as int, cols as int, n);
    assert(r == tf(base, cx, cy));
    assert(read_row(hx, cx) == cx && read_row(hy, cy) == cy);
    assert(g[cx].len() == cols);
    assert(g[hx].len() == cols);
    let push = push_fires(hop, che, cx, cy);
    let pull = pull_fires(hop, che, cx, cy);
    assert(!(push && pull));
    if push {
        let a1 = set_cell(base, cx, cy, with_item(base[cx][cy], hop.item_type));
        assert(r == set_cell(a1, hx, hy, with_item(a1[hx][hy], ItemType::Empty)));
        assert(r[cx][cy] == with_item(che, hop.item_type));
        assert(r[hx][hy] == with_item(hop, ItemType::Empty));
        assert forall|i: int, j: int| 0 <= i < rows && 0 <= j < cols && !(i == cx && j == cy) && !(i == hx && j == hy)
            implies g[i][j] == r[i][j] by {}
    } else if pull {
        let a1 = set_cell(base, cx, cy, with_item(base[cx][cy], ItemType::Empty));
        assert(r == set_cell(a1, hx, hy, with_item(a1[hx][hy], che.item_type)));
        assert(r[cx][cy] == with_item(che, ItemType::Empty));
        assert(r[hx][hy] == with_item(hop, che.item_type));
        assert forall|i: int, j: int| 0 <= i < rows && 0 <= j < cols && !(i == cx && j == cy) && !(i == hx && j == hy)
            implies g[i][j] == r[i][j] by {}
    } else {
        assert(r == base);
    }
    lemma_item_count_two(g, r, rows as int, cols as int, cx, cy, hx, hy);
}

/// Whether a hopper at `(x, y)` of a grid of `rows` by `cols` cells fits
/// (`hopper_fits`), for a cell of the grid.
fn hopper_fits_at(x: usize, y: usize, rows: usize, cols: usize) -> (r: bool)
    requires
        x < rows,
        y < cols,
        rows <= i32::MAX,
        cols <= i32::MAX,
    ensures
        r == hopper_fits(x as int, y as int, rows as int, cols as int),
{
    let xi = x as i32;
    let yi = y as i32;
    let r0 = bgc(xi - 1) as i64;
    let r1 = bgc(xi + 1) as i64;
    let c0 = bgc(yi - 1) as i64;
    let c1 = bgc(yi + 1) as i64;
    let xl = x as i64;
    let yl = y as i64;
    r1 < rows as i64 && c1 < cols as i64 && 0 <= xl - 1 && r1 - r0 + xl - 1 < rows as i64
        && 0 <= yl - 1 && c1 - c0 + yl - 1 < cols as i64
}

/// Whether `step` can run from `grid` into `next_grid` (`step_fits`).
pub fn can_step(grid: &Grid<Block>, next_grid: &Grid<Block>) -> (r: bool)
    ensures
        r == step_fits(grid@, grid.rows() as int, grid.cols() as int, next_grid.rows() as int, next_grid.cols() as int),
{
    let (rows, cols) = grid.shape();
    let (next_rows, next_cols) = next_grid.shape();
    if rows == 0 || cols == 0 {
        return true;
    }
    if rows > next_rows || cols > next_cols || rows > i32::MAX as usize || cols > i32::MAX as usize {
        return false;
    }
    let mut x: usize = 0;
    while x < rows
        invariant
            fits(grid@, (rows, cols)),
            rows == grid.rows(),
            cols == grid.cols(),
            rows <= next_rows,
            cols <= next_cols,
            rows <= i32::MAX,
            cols <= i32::MAX,
            x <= rows,
            forall|a: int, b: int| 0 <= a < x && 0 <= b < cols && (#[trigger] grid@[a][b]).block_type
                == BlockType::Hopper ==> hopper_fits(a, b, rows as int, cols as int),
        decreases rows - x,
    {
        let mut y: usize = 0;
        while y < cols
            invariant
                fits(grid@, (rows, cols)),
                rows == grid.rows(),
                cols == grid.cols(),
                rows <= next_rows,
                cols <= next_cols,
                rows <= i32::MAX,
                cols <= i32::MAX,
                x < rows,
                y <= cols,
                forall|a: int, b: int| 0 <= a < rows && 0 <= b < cols && (a < x || (a == x && b < y))
                    && (#[trigger] grid@[a][b]).block_type == BlockType::Hopper
                    ==> hopper_fits(a, b, rows as int, cols as int),
            decreases cols - y,
        {
            let b = grid.at(x, y);
            if b.block_type == BlockType::Hopper && !hopper_fits_at(x, y, rows, cols) {
                return false;
            }
            y += 1;
        }
        x += 1;
    }
    true
}

/// An empty hopper never pulls from the chest it points at, and a hopper
/// only writes there to fill it when it is empty: when the hopper `this`
/// at `(x, y)` points at another cell of the next grid whose block in the
/// grid is not an empty chest, that cell of the next grid keeps its block.
pub proof fn lemma_pointed_cell_kept(
    this: Block,
    x: int,
    y: int,
    g: Seq<Seq<Block>>,
    n: Seq<Seq<Block>>,
    rows: usize,
    cols: usize,
    next_rows: usize,
    next_cols: usize,
)
    requires
        fits(g, (rows, cols)),
        fits(n, (next_rows, next_cols)),
        update_fits(this, x, y, g, rows as int, cols as int, next_rows as int, next_cols as int),
        0 <= this.direction_x < next_rows,
        0 <= this.direction_y < next_cols,
        !(this.direction_x == x && this.direction_y == y),
        !(0 <= this.direction_x < rows && 0 <= this.direction_y < cols
            && g[this.direction_x as int][this.direction_y as int].block_type == BlockType::Chest
            && g[this.direction_x as int][this.direction_y as int].item_type == ItemType::Empty),
    ensures
        spec_update(this, x, y, g, n)[this.direction_x as int][this.direction_y as int]
            == n[this.direction_x as int][this.direction_y as int],
{
    if this.block_type == BlockType::Hopper {
        let dx = this.direction_x as int;
        let dy = this.direction_y as int;
        let p = |acc: Seq<Seq<Block>>| fits(acc, (next_rows, next_cols)) && acc[dx][dy] == n[dx][dy];
        let f = transfer_step(g, this, x, y);
        let r0 = spec_bgc(x - 1);
        let r_end = spec_bgc(x + 1) + 1;
        let c0 = spec_bgc(y - 1);
        let c_end = spec_bgc(y + 1) + 1;
        assert(keeps_on(f, p, r0, r_end, c0, c_end)) by {
            assert forall|a: Seq<Seq<Block>>, i: int, j: int|
                r0 <= i < r_end && c0 <= j < c_end && p(a) implies #[trigger] p(f(a, i, j)) by {
                let cx = read_row(x, i);
                let cy = read_row(y, j);
                assert(0 <= cx < rows && 0 <= cy < cols);
                assert(g[cx].len() == cols);
                let nb = g[cx][cy];
                if fires_at(g, this, x, y, i, j) {
                    assert(cx < next_rows && cy < next_cols && x < next_rows && y < next_cols);
                    assert(0 <= x && 0 <= y);
                    assert(!(cx == dx && cy == dy));
                    let pushed = if push_fires(this, nb, cx, cy) {
                        exchange_items(a, cx, cy, x, y, this.item_type, ItemType::Empty)
                    } else {
                        a
                    };
                    assert(a[cx].len() == next_cols);
                    if push_fires(this, nb, cx, cy) {
                        let a1 = set_cell(a, cx, cy, with_item(a[cx][cy], this.item_type));
                        assert(a1[dx][dy] == n[dx][dy]);
                        assert(fits(a1, (next_rows, next_cols)));
                        assert(a1[x].len() == next_cols);
                    }
                    assert(p(pushed));
                    assert(pushed[cx].len() == next_cols);
                    if pull_fires(this, nb, cx, cy) {
                        let a1 = set_cell(pushed, cx, cy, with_item(pushed[cx][cy], ItemType::Empty));
                        assert(a1[dx][dy] == n[dx][dy]);
                        assert(fits(a1, (next_rows, next_cols)));
                        assert(a1[x].len() == next_cols);
                    }
                }
            }
        }
        lemma_fold_window_keeps(f, p, n, r0, r_end, c0, c_end);
    }
}

/// Whether `(cx, cy)` is the only chest among the cell `(x, y)` and its
/// neighbours in a grid of `rows` by `cols` cells.
pub open spec fn sole_chest_near(g: Seq<Seq<Block>>, cx: int, cy: int, x: int, y: int, rows: int, cols: int) -> bool {
    &&& 0 <= cx < rows
    &&& 0 <= cy < cols
    &&& near(cx, cy, x, y)
    &&& g[cx][cy].block_type == BlockType::Chest
    &&& forall|p: int, q: int| 0 <= p < rows && 0 <= q < cols && near(p, q, x, y) && !(p == cx && q == cy)
        ==> (#[trigger] g[p][q]).block_type != BlockType::Chest
}

/// Whether `r` is `n` (of `next_rows` by `next_cols` cells) with the item
/// of the cell `(cx, cy)` set to `to_chest` and that of the distinct cell
/// `(x, y)` set to `to_hopper`, and nothing else changed.
pub open spec fn moved_items(
    r: Seq<Seq<Block>>,
    n: Seq<Seq<Block>>,
    next_rows: int,
    next_cols: int,
    cx: int,
    cy: int,
    x: int,
    y: int,
    to_chest: ItemType,
    to_hopper: ItemType,
) -> bool {
    &&& r.len() == next_rows
    &&& r[cx][cy] == with_item(n[cx][cy], to_chest)
    &&& r[x][y] == with_item(n[x][y], to_hopper)
    &&& forall|a: int, b: int| 0 <= a < next_rows && 0 <= b < next_cols && !(a == cx && b == cy) && !(a == x && b == y)
        ==> #[trigger] r[a][b] == n[a][b]
}

/// A hopper with a single chest among its neighbours, in a grid of at most
/// `N` by `N` cells: when it is full, points at the chest and the chest is
/// empty, its item moves into the chest and it is emptied; when it is empty,
/// does not point at the chest and the chest is full, the chest's item
/// moves into it and the chest is emptied; otherwise the next grid stays.
pub proof fn lemma_update_single_chest(
    this: Block,
    x: int,
    y: int,
    g: Seq<Seq<Block>>,
    n: Seq<Seq<Block>>,
    rows: usize,
    cols: usize,
    next_rows: usize,
    next_cols: usize,
    cx: int,
    cy: int,
)
    requires
        fits(g, (rows, cols)),
        fits(n, (next_rows, next_cols)),
        rows <= N,
        cols <= N,
        rows <= next_rows,
        cols <= next_cols,
        this.block_type == BlockType::Hopper,
        0 <= x < rows,
        0 <= y < cols,
        update_fits(this, x, y, g, rows as int, cols as int, next_rows as int, next_cols as int),
        sole_chest_near(g, cx, cy, x, y, rows as int, cols as int),
        !(cx == x && cy == y),
    ensures
        ({
            let c = g[cx][cy];
            let r = spec_update(this, x, y, g, n);
            let at = this.direction_x == cx && this.direction_y == cy;
            &&& this.item_type != ItemType::Empty && at && c.item_type == ItemType::Empty ==>
                moved_items(r, n, next_rows as int, next_cols as int, cx, cy, x, y, this.item_type, ItemType::Empty)
            &&& this.item_type == ItemType::Empty && !at && c.item_type != ItemType::Empty ==>
                moved_items(r, n, next_rows as int, next_cols as int, cx, cy, x, y, ItemType::Empty, c.item_type)
            &&& !(this.item_type != ItemType::Empty && at && c.item_type == ItemType::Empty)
                && !(this.item_type == ItemType::Empty && !at && c.item_type != ItemType::Empty) ==> r == n
        }),
{
    let che = g[cx][cy];
    assert(spec_bgc(x - 1) == x - 1);
    assert(spec_bgc(y - 1) == y - 1);
    let tf = transfer_step(g, this, x, y);
    assert forall|a: Seq<Seq<Block>>, i: int, j: int|
        spec_bgc(x - 1) <= i < spec_bgc(x + 1) + 1 && spec_bgc(y - 1) <= j < spec_bgc(y + 1) + 1
            && !(i == cx && j == cy) implies #[trigger] tf(a, i, j) == a by {
        assert(read_row(x, i) == i && read_row(y, j) == j);
        assert(0 <= i < rows && 0 <= j < cols);
        assert(g[i].len() == cols);
        assert(near(i, j, x, y));
    }
    lemma_fold_window_single(tf, n, spec_bgc(x - 1), spec_bgc(x + 1) + 1, spec_bgc(y - 1),
        spec_bgc(y + 1) + 1, cx, cy);
    let r = spec_update(this, x, y, g, n);
    assert(r == tf(n, cx, cy));
    assert(read_row(x, cx) == cx && read_row(y, cy) == cy);
    assert(n[cx].len() == next_cols);
    assert(n[x].len() == next_cols);
    let push = push_fires(this, che, cx, cy);
    let pull = pull_fires(this, che, cx, cy);
    if push {
        let a1 = set_cell(n, cx, cy, with_item(n[cx][cy], this.item_type));
        assert(a1[x][y] == n[x][y]);
        assert(r == set_cell(a1, x, y, with_item(a1[x][y], ItemType::Empty)));
        assert forall|a: int, b: int| 0 <= a < next_rows && 0 <= b < next_cols && !(a == cx && b == cy) && !(a == x && b == y)
            implies #[trigger] r[a][b] == n[a][b] by {}
    } else if pull {
        let a1 = set_cell(n, cx, cy, with_item(n[cx][cy], ItemType::Empty));
        assert(a1[x][y] == n[x][y]);
        assert(r == set_cell(a1, x, y, with_item(a1[x][y], che.item_type)));
        assert forall|a: int, b: int| 0 <= a < next_rows && 0 <= b < next_cols && !(a == cx && b == cy) && !(a == x && b == y)
            implies #[trigger] r[a][b] == n[a][b] by {}
    }
}

} // verus!
