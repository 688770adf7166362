use vstd::prelude::*;

use crate::block::{Block, BlockType, ItemType, with_item, with_type, is_container, no_hoppers, no_items, near};
use crate::grid::{Grid, fits};
use crate::window::{append, clamp, fold_window, fold_row, keeps_on, lemma_fold_window_keeps, lemma_fold_window_single};

verus! {

/// The side of the square grid the exchange simulation is laid out for.
pub const N: usize = 200;

/// `coord` clamped to a grid coordinate in `0 ..= N - 1`.
pub open spec fn spec_bgc(coord: int) -> int {
    clamp(coord, N as int)
}

/// Bounded grid coordinate: `coord` clamped to `0 ..= N - 1`.
pub fn bgc(coord: i32) -> (r: i32)
    ensures
        r == spec_bgc(coord as int),
        0 <= r < N,
        0 <= coord < N ==> r == coord,
        coord < 0 ==> r == 0,
        coord >= N ==> r == N - 1,
{
    (N as i32 - 1).min(0i32.max(coord))
}

/// A transfer made by the exchange rule, reported at the position `(x, y)`
/// that the rule was given for the block that made it.
#[derive(Clone, Copy, Debug, PartialEq, Eq, Structural)]
pub enum Transfer {
    /// An empty hopper emptied the chest it points at.
    ChestEmptied { x: i32, y: i32 },
    /// A full hopper gave its item to a chest it does not point at.
    ChestFilled { x: i32, y: i32, item: ItemType },
    /// An empty chest emptied the hopper it points at.
    HopperEmptied { x: i32, y: i32 },
    /// A full chest gave its item to a hopper it does not point at.
    HopperFilled { x: i32, y: i32, item: ItemType },
}

/// Whether `a` and `b` are a hopper and a chest, in either order.
pub open spec fn hopper_chest_pair(a: Block, b: Block) -> bool {
    ||| a.block_type == BlockType::Hopper && b.block_type == BlockType::Chest
    ||| a.block_type == BlockType::Chest && b.block_type == BlockType::Hopper
}

/// What the block `this`, a neighbour of the cell `(nx, ny)` whose current
/// block is `cv`, does to that cell's next block `nxtv`: between a hopper
/// and a chest, an empty `this` empties the cell when `this` points at it,
/// and a full `this` hands the cell its item when it points elsewhere.
pub open spec fn spec_update_neighbour(this: Block, nx: int, ny: int, cv: Block, nxtv: Block) -> Block {
    if hopper_chest_pair(this, cv) {
        let at = this.direction_x == nx && this.direction_y == ny;
        if this.item_type == ItemType::Empty {
            if at { with_item(nxtv, ItemType::Empty) } else { nxtv }
        } else {
            if !at { with_item(nxtv, this.item_type) } else { nxtv }
        }
    } else {
        nxtv
    }
}

/// The transfer that `spec_update_neighbour` makes, if any, reported at
/// `(x, y)`: whenever the rule writes the cell's item.
pub open spec fn spec_neighbour_transfer(this: Block, x: i32, y: i32, nx: int, ny: int, cv: Block) -> Option<Transfer> {
    if hopper_chest_pair(this, cv) {
        let at = this.direction_x == nx && this.direction_y == ny;
        if this.item_type == ItemType::Empty {
            if !at {
                None
            } else if this.block_type == BlockType::Hopper {
                Some(Transfer::ChestEmptied { x, y })
            } else {
                Some(Transfer::HopperEmptied { x, y })
            }
        } else {
            if at {
                None
            } else if this.block_type == BlockType::Hopper {
                Some(Transfer::ChestFilled { x, y, item: this.item_type })
            } else {
                Some(Transfer::HopperFilled { x, y, item: this.item_type })
            }
        }
    } else {
        None
    }
}

/// Applies the rule of `spec_update_neighbour` for the block `this`, given
/// the position `(x, y)`, to the next block `nxtv` of the cell `(nx, ny)`,
/// whose current block is `cv`, and appends the transfer it makes to `log`.
/// The position `(x, y)` only enters the report.
pub fn update_neighbour(
    this: &Block,
    x: i32,
    y: i32,
    nx: i32,
    ny: i32,
    cv: &Block,
    nxtv: &mut Block,
    log: &mut Vec<Transfer>,
)
    ensures
        *final(nxtv) == spec_update_neighbour(*this, nx as int, ny as int, *cv, *old(nxtv)),
        final(log)@ == append(old(log)@, spec_neighbour_transfer(*this, x, y, nx as int, ny as int, *cv)),
{
    match this.block_type {
        BlockType::Hopper => {
            match cv.block_type {
                BlockType::Chest => {
                    match this.item_type {
                        ItemType::Empty => {
                            if this.direction_x == nx && this.direction_y == ny {
                                log.push(Transfer::ChestEmptied { x, y });
                                nxtv.item_type = ItemType::Empty;
                            }
                        },
                        _ => {
                            if this.direction_x != nx || this.direction_y != ny {
                                log.push(Transfer::ChestFilled { x, y, item: this.item_type });
                                nxtv.item_type = this.item_type;
                            }
                        },
                    }
                },
                _ => {},
            }
        },
        BlockType::Chest => {
            match cv.block_type {
                BlockType::Hopper => {
                    match this.item_type {
                        ItemType::Empty => {
                            if this.direction_x == nx && this.direction_y == ny {
                                log.push(Transfer::HopperEmptied { x, y });
                                nxtv.item_type = ItemType::Empty;
                            }
                        },
                        _ => {
                            if this.direction_x != nx || this.direction_y != ny {
                                log.push(Transfer::HopperFilled { x, y, item: this.item_type });
                                nxtv.item_type = this.item_type;
                            }
                        },
                    }
                },
                _ => {},
            }
        },
        _ => {},
    }
}

/// The neighbour rule for the cell `(x, y)`, whose current block is `cv`,
/// as a step over the cells `(i, j)` of its window.
pub open spec fn neighbour_step(g: Seq<Seq<Block>>, x: int, y: int, cv: Block) -> spec_fn(Block, int, int) -> Block {
    |acc: Block, i: int, j: int| spec_update_neighbour(g[i][j], x, y, cv, acc)
}

/// The reports of the neighbour rule for the cell `(x, y)`, whose current
/// block is `cv`, as a step over the cells `(i, j)` of its window: each
/// block is reported at its offset in the window plus `(x - 1, y - 1)`.
pub open spec fn neighbour_log_step(g: Seq<Seq<Block>>, x: int, y: int, cv: Block)
    -> spec_fn(Seq<Transfer>, int, int) -> Seq<Transfer> {
    |acc: Seq<Transfer>, i: int, j: int|
        append(acc, spec_neighbour_transfer(g[i][j], (i - spec_bgc(x - 1) + x - 1) as i32,
            (j - spec_bgc(y - 1) + y - 1) as i32, x, y, cv))
}

/// `log` with the transfers made for the cell `(x, y)` of the grid `g`
/// appended, in the order of `spec_next_cell`.
pub open spec fn spec_cell_log(g: Seq<Seq<Block>>, x: int, y: int, log: Seq<Transfer>) -> Seq<Transfer> {
    fold_window(
        neighbour_log_step(g, x, y, g[x][y]),
        log,
        spec_bgc(x - 1),
        spec_bgc(x + 1) + 1,
        spec_bgc(y - 1),
        spec_bgc(y + 1) + 1,
    )
}

/// The next block of the cell `(x, y)` of the grid `g`, from `cur`, its
/// block in the next grid so far: the current block type, then the rule of
/// every block of the clamped 3 by 3 window around the cell (the cell
/// included), row by row.
pub open spec fn spec_next_cell(g: Seq<Seq<Block>>, x: int, y: int, cur: Block) -> Block {
    let cv = g[x][y];
    fold_window(
        neighbour_step(g, x, y, cv),
        Block { block_type: cv.block_type, ..cur },
        spec_bgc(x - 1),
        spec_bgc(x + 1) + 1,
        spec_bgc(y - 1),
        spec_bgc(y + 1) + 1,
    )
}

/// Whether the window around `(x, y)` lies inside a grid of `rows` by
/// `cols` cells, and the cell's coordinates fit in `i32`.
pub open spec fn window_fits(x: int, y: int, rows: int, cols: int) -> bool {
    &&& 0 <= x < rows
    &&& 0 <= y < cols
    &&& spec_bgc(x + 1) < rows
    &&& spec_bgc(y + 1) < cols
    &&& x < i32::MAX
    &&& y < i32::MAX
}

/// The next block of the cell `(x, y)` of `grid`, from its block `cur` in
/// the next grid; the transfers made are appended to `log`.
pub fn next_cell(grid: &Grid<Block>, x: usize, y: usize, cur: Block, log: &mut Vec<Transfer>) -> (b: Block)
    requires
        window_fits(x as int, y as int, grid.rows() as int, grid.cols() as int),
    ensures
        b == spec_next_cell(grid@, x as int, y as int, cur),
        final(log)@ == spec_cell_log(grid@, x as int, y as int, old(log)@),
{
    let ghost log0 = log@;
    let (rows, cols) = grid.shape();
    let cv = grid.at(x, y);
    let xi = x as i32;
    let yi = y as i32;
    let mut nxtv = Block { block_type: cv.block_type, ..cur };
    let ghost start = nxtv;
    let ghost f = neighbour_step(grid@, x as int, y as int, cv);
    let ghost lf = neighbour_log_step(grid@, x as int, y as int, cv);
    let r0 = bgc(xi - 1);
    let r1 = bgc(xi + 1);
    let c0 = bgc(yi - 1);
    let c1 = bgc(yi + 1);
    let mut i = r0;
    while i <= r1
        invariant
            fits(grid@, (rows, cols)),
            rows == grid.rows(),
            cols == grid.cols(),
            window_fits(x as int, y as int, rows as int, cols as int),
            xi == x,
            yi == y,
            cv == grid@[x as int][y as int],
            f == neighbour_step(grid@, x as int, y as int, cv),
            r0 == spec_bgc(x - 1),
            r1 == spec_bgc(x + 1),
            c0 == spec_bgc(y - 1),
            c1 == spec_bgc(y + 1),
            r0 <= i <= r1 + 1,
            nxtv == fold_window(f, start, r0 as int, i as int, c0 as int, c1 + 1),
            lf == neighbour_log_step(grid@, x as int, y as int, cv),
            log@ == fold_window(lf, log0, r0 as int, i as int, c0 as int, c1 + 1),
        decreases r1 + 1 - i,
    {
        let ghost row_start = nxtv;
        let ghost log_start = log@;
        let mut j = c0;
        while j <= c1
            invariant
                fits(grid@, (rows, cols)),
                rows == grid.rows(),
                cols == grid.cols(),
                window_fits(x as int, y as int, rows as int, cols as int),
                xi == x,
                yi == y,
                cv == grid@[x as int][y as int],
                f == neighbour_step(grid@, x as int, y as int, cv),
                r0 == spec_bgc(x - 1),
                r1 == spec_bgc(x + 1),
                c0 == spec_bgc(y - 1),
                c1 == spec_bgc(y + 1),
                r0 <= i <= r1,
                c0 <= j <= c1 + 1,
                nxtv == fold_row(f, row_start, i as int, c0 as int, j as int),
                lf == neighbour_log_step(grid@, x as int, y as int, cv),
                log@ == fold_row(lf, log_start, i as int, c0 as int, j as int),
            decreases c1 + 1 - j,
        {
            let nv = grid.at(i as usize, j as usize);
            update_neighbour(&nv, (i - r0) + xi - 1, (j - c0) + yi - 1, xi, yi, &cv, &mut nxtv, log);
            j += 1;
        }
        i += 1;
    }
    nxtv
}

/// What a cell keeps through `spec_next_cell`: it takes the block type of
/// the grid's cell and keeps its own direction; a cell of the grid that is
/// neither chest nor hopper keeps its item; and when the grid has no hopper,
/// or neither the grid nor the cell holds an item, only the block type
/// changes.
pub proof fn lemma_next_cell_laws(g: Seq<Seq<Block>>, x: int, y: int, cur: Block, rows: usize, cols: usize)
    requires
        fits(g, (rows, cols)),
        window_fits(x, y, rows as int, cols as int),
    ensures
        spec_next_cell(g, x, y, cur).block_type == g[x][y].block_type,
        spec_next_cell(g, x, y, cur).direction_x == cur.direction_x,
        spec_next_cell(g, x, y, cur).direction_y == cur.direction_y,
        !is_container(g[x][y]) ==> spec_next_cell(g, x, y, cur).item_type == cur.item_type,
        no_hoppers(g) || (no_items(g) && cur.item_type == ItemType::Empty)
            ==> spec_next_cell(g, x, y, cur) == with_type(cur, g[x][y].block_type),
{
    let cv = g[x][y];
    let start = with_type(cur, cv.block_type);
    let quiet = no_hoppers(g) || (no_items(g) && cur.item_type == ItemType::Empty);
    let p = |b: Block| {
        &&& b.block_type == cv.block_type
        &&& b.direction_x == cur.direction_x
        &&& b.direction_y == cur.direction_y
        &&& !is_container(cv) ==> b.item_type == cur.item_type
        &&& quiet ==> b == start
    };
    let f = neighbour_step(g, x, y, cv);
    let r0 = spec_bgc(x - 1);
    let r_end = spec_bgc(x + 1) + 1;
    let c0 = spec_bgc(y - 1);
    let c_end = spec_bgc(y + 1) + 1;
    assert(keeps_on(f, p, r0, r_end, c0, c_end)) by {
        assert forall|a: Block, i: int, j: int|
            r0 <= i < r_end && c0 <= j < c_end && p(a) implies #[trigger] p(f(a, i, j)) by {
            assert(0 <= i < rows && 0 <= j < cols);
            assert(g[i].len() == cols);
            let nb = g[i][j];
            if no_hoppers(g) {
                assert(nb.block_type != BlockType::Hopper);
                assert(cv.block_type != BlockType::Hopper);
            }
            if no_items(g) {
                assert(nb.item_type == ItemType::Empty);
            }
        }
    }
    assert(start == Block { block_type: cv.block_type, ..cur });
    lemma_fold_window_keeps(f, p, start, r0, r_end, c0, c_end);
}

/// The next grid that `step` makes from the grid `g` and the next grid so
/// far `n`: every cell of `n` becomes its `spec_next_cell`.
pub open spec fn spec_step(g: Seq<Seq<Block>>, n: Seq<Seq<Block>>) -> Seq<Seq<Block>> {
    Seq::new(n.len(), |x: int| Seq::new(n[x].len(), |y: int| spec_next_cell(g, x, y, n[x][y])))
}

/// The transfers of every cell of a next grid of `rows` by `cols` cells as
/// a step over the cells, acting on the log.
pub open spec fn cell_log_step(g: Seq<Seq<Block>>) -> spec_fn(Seq<Transfer>, int, int) -> Seq<Transfer> {
    |acc: Seq<Transfer>, x: int, y: int| spec_cell_log(g, x, y, acc)
}

/// `log` with the transfers that `step` makes into a next grid of `rows` by
/// `cols` cells appended: those of each cell, row by row.
pub open spec fn spec_step_log(g: Seq<Seq<Block>>, rows: int, cols: int, log: Seq<Transfer>) -> Seq<Transfer> {
    fold_window(cell_log_step(g), log, 0, rows, 0, cols)
}

/// Whether `step` can run from `grid` into a next grid of `rows` by `cols`
/// cells: a next grid without cells always can; otherwise it is no larger
/// than the grid, the window of every cell lies inside the grid, and the
/// coordinates fit in `i32`.
pub open spec fn step_fits(grid_rows: int, grid_cols: int, rows: int, cols: int) -> bool {
    rows > 0 && cols > 0 ==> {
        &&& rows <= grid_rows
        &&& cols <= grid_cols
        &&& spec_bgc(rows) < grid_rows
        &&& spec_bgc(cols) < grid_cols
        &&& rows <= i32::MAX
        &&& cols <= i32::MAX
    }
}

/// One step of the exchange: every cell of `next_grid` becomes the next
/// block of the same cell of `grid`, from its present block in `next_grid`.
pub fn step(grid: &Grid<Block>, next_grid: &mut Grid<Block>, log: &mut Vec<Transfer>)
    requires
        step_fits(grid.rows() as int, grid.cols() as int, old(next_grid).rows() as int, old(next_grid).cols() as int),
    ensures
        final(next_grid).rows() == old(next_grid).rows(),
        final(next_grid).cols() == old(next_grid).cols(),
        final(next_grid)@ == spec_step(grid@, old(next_grid)@),
        forall|x: int, y: int| 0 <= x < old(next_grid).rows() && 0 <= y < old(next_grid).cols()
            ==> #[trigger] final(next_grid)@[x][y] == spec_next_cell(grid@, x, y, old(next_grid)@[x][y]),
        forall|x: int, y: int| 0 <= x < old(next_grid).rows() && 0 <= y < old(next_grid).cols() ==> {
            &&& (#[trigger] final(next_grid)@[x][y]).block_type == grid@[x][y].block_type
            &&& final(next_grid)@[x][y].direction_x == old(next_grid)@[x][y].direction_x
            &&& final(next_grid)@[x][y].direction_y == old(next_grid)@[x][y].direction_y
            &&& !is_container(grid@[x][y]) ==> final(next_grid)@[x][y].item_type == old(next_grid)@[x][y].item_type
        },
        no_hoppers(grid@) || (no_items(grid@) && no_items(old(next_grid)@)) ==>
            forall|x: int, y: int| 0 <= x < old(next_grid).rows() && 0 <= y < old(next_grid).cols() ==>
                #[trigger] final(next_grid)@[x][y] == with_type(old(next_grid)@[x][y], grid@[x][y].block_type),
        final(log)@ == spec_step_log(grid@, old(next_grid).rows() as int, old(next_grid).cols() as int, old(log)@),
{
    let ghost n0 = next_grid@;
    let ghost log0 = log@;
    let ghost lf = cell_log_step(grid@);
    let (rows, cols) = next_grid.shape();
    let (gr, gc) = grid.shape();
    let mut x: usize = 0;
    while x < rows
        invariant
            step_fits(gr as int, gc as int, rows as int, cols as int),
            gr == grid.rows(),
            gc == grid.cols(),
            rows == next_grid.rows(),
            cols == next_grid.cols(),
            fits(n0, (rows, cols)),
            fits(next_grid@, (rows, cols)),
            x <= rows,
            forall|a: int, b: int| 0 <= a < rows && 0 <= b < cols ==>
                #[trigger] next_grid@[a][b] == if a < x { spec_next_cell(grid@, a, b, n0[a][b]) } else { n0[a][b] },
            lf == cell_log_step(grid@),
            log@ == fold_window(lf, log0, 0, x as int, 0, cols as int),
        decreases rows - x,
    {
        let ghost log_start = log@;
        let mut y: usize = 0;
        while y < cols
            invariant
                step_fits(gr as int, gc as int, rows as int, cols as int),
                gr == grid.rows(),
                gc == grid.cols(),
                rows == next_grid.rows(),
                cols == next_grid.cols(),
                fits(n0, (rows, cols)),
                fits(next_grid@, (rows, cols)),
                x < rows,
                y <= cols,
                forall|a: int, b: int| 0 <= a < rows && 0 <= b < cols ==>
                    #[trigger] next_grid@[a][b] == if a < x || (a == x && b < y) {
                        spec_next_cell(grid@, a, b, n0[a][b])
                    } else {
                        n0[a][b]
                    },
                lf == cell_log_step(grid@),
                log@ == fold_row(lf, log_start, x as int, 0, y as int),
            decreases cols - y,
        {
            let cur = next_grid.at(x, y);
            let b = next_cell(grid, x, y, cur, log);
            next_grid.put(x, y, b);
            y += 1;
        }
        x += 1;
    }
    assert(next_grid@ =~~= spec_step(grid@, n0));
    assert forall|a: int, b: int| 0 <= a < rows && 0 <= b < cols implies {
        &&& next_grid@[a][b].block_type == grid@[a][b].block_type
        &&& next_grid@[a][b].direction_x == n0[a][b].direction_x
        &&& next_grid@[a][b].direction_y == n0[a][b].direction_y
        &&& !is_container(grid@[a][b]) ==> next_grid@[a][b].item_type == n0[a][b].item_type
        &&& no_hoppers(grid@) || (no_items(grid@) && no_items(n0)) ==>
            next_grid@[a][b] == with_type(n0[a][b], grid@[a][b].block_type)
    } by {
        lemma_next_cell_laws(grid@, a, b, n0[a][b], gr, gc);
        if no_items(n0) {
            assert(n0[a].len() == cols);
            assert(n0[a][b].item_type == ItemType::Empty);
        }
    }
}

/// Whether `step` can run from `grid` into `next_grid` (`step_fits`).
pub fn can_step(grid: &Grid<Block>, next_grid: &Grid<Block>) -> (r: bool)
    ensures
        r == step_fits(grid.rows() as int, grid.cols() as int, next_grid.rows() as int, next_grid.cols() as int),
{
    let (gr, gc) = grid.shape();
    let (rows, cols) = next_grid.shape();
    if rows == 0 || cols == 0 {
        return true;
    }
    if rows > gr || cols > gc || rows > i32::MAX as usize || cols > i32::MAX as usize {
        return false;
    }
    (bgc(rows as i32) as usize) < gr && (bgc(cols as i32) as usize) < gc
}

/// The exchange rule, case by case, between a hopper and a chest (either
/// being `this`, the other `cv`): when `this` is full and does not point at
/// `(nx, ny)` the cell takes the item of `this`, whatever `cv` holds; when
/// `this` is empty and points at `(nx, ny)` the cell is emptied; each of
/// these reports one transfer at `(x, y)`, and nothing else changes the
/// block or reports anything.
pub proof fn lemma_neighbour_rule(this: Block, x: i32, y: i32, nx: i32, ny: i32, cv: Block, nxtv: Block, log: Seq<Transfer>)
    ensures
        ({
            let pair = (this.block_type == BlockType::Hopper && cv.block_type == BlockType::Chest)
                || (this.block_type == BlockType::Chest && cv.block_type == BlockType::Hopper);
            let at = this.direction_x == nx && this.direction_y == ny;
            let r = spec_update_neighbour(this, nx as int, ny as int, cv, nxtv);
            let l = append(log, spec_neighbour_transfer(this, x, y, nx as int, ny as int, cv));
            &&& pair && this.item_type != ItemType::Empty && !at ==> {
                &&& r == Block { item_type: this.item_type, ..nxtv }
                &&& this.block_type == BlockType::Hopper ==> l == log.push(
                    Transfer::ChestFilled { x, y, item: this.item_type })
                &&& this.block_type == BlockType::Chest ==> l == log.push(
                    Transfer::HopperFilled { x, y, item: this.item_type })
            }
            &&& pair && this.item_type == ItemType::Empty && at ==> {
                &&& r == Block { item_type: ItemType::Empty, ..nxtv }
                &&& this.block_type == BlockType::Hopper ==> l == log.push(Transfer::ChestEmptied { x, y })
                &&& this.block_type == BlockType::Chest ==> l == log.push(Transfer::HopperEmptied { x, y })
            }
            &&& !pair || (this.item_type != ItemType::Empty && at) || (this.item_type == ItemType::Empty && !at)
                ==> r == nxtv && l == log
        }),
{
}

/// Every neighbour of a cell is visited: when exactly one block among the
/// cell `(x, y)` and its in-grid neighbours (inside the first `N` rows and
/// columns) forms a hopper-chest pair with the cell, the cell's next block
/// is its own block type and `cur`'s direction, with the item that block's
/// rule gives: the block's item when it is full and does not point at the
/// cell, nothing when it is empty and points at the cell, and `cur`'s item
/// otherwise.
pub proof fn lemma_next_cell_single_partner(
    g: Seq<Seq<Block>>,
    x: int,
    y: int,
    cur: Block,
    rows: usize,
    cols: usize,
    i: int,
    j: int,
)
    requires
        fits(g, (rows, cols)),
        window_fits(x, y, rows as int, cols as int),
        x < N,
        y < N,
        0 <= i < rows,
        0 <= j < cols,
        i < N,
        j < N,
        near(i, j, x, y),
        hopper_chest_pair(g[i][j], g[x][y]),
        forall|p: int, q: int| 0 <= p < rows && 0 <= q < cols && near(p, q, x, y) && !(p == i && q == j)
            ==> !hopper_chest_pair(#[trigger] g[p][q], g[x][y]),
    ensures
        ({
            let b = g[i][j];
            let at = b.direction_x == x && b.direction_y == y;
            let r = spec_next_cell(g, x, y, cur);
            &&& r.block_type == g[x][y].block_type
            &&& r.direction_x == cur.direction_x
            &&& r.direction_y == cur.direction_y
            &&& r.item_type == if b.item_type != ItemType::Empty && !at {
                b.item_type
            } else if b.item_type == ItemType::Empty && at {
                ItemType::Empty
            } else {
                cur.item_type
            }
        }),
{
    let cv = g[x][y];
    let f = neighbour_step(g, x, y, cv);
    let r0 = spec_bgc(x - 1);
    let r_end = spec_bgc(x + 1) + 1;
    let c0 = spec_bgc(y - 1);
    let c_end = spec_bgc(y + 1) + 1;
    assert forall|a: Block, p: int, q: int| r0 <= p < r_end && c0 <= q < c_end && !(p == i && q == j)
        implies #[trigger] f(a, p, q) == a by {
        assert(0 <= p < rows && 0 <= q < cols);
        assert(g[p].len() == cols);
        assert(near(p, q, x, y));
        assert(!hopper_chest_pair(g[p][q], g[x][y]));
    }
    lemma_fold_window_single(f, Block { block_type: cv.block_type, ..cur }, r0, r_end, c0, c_end, i, j);
}

} // verus!
