use vstd::prelude::*;

use crate::block::{Block, BlockType, ItemType, with_item, same_layout, is_container, no_hoppers, no_items, near,
    holds_item, item_count, lemma_item_count_two};
use crate::grid::{Grid, fits};
use crate::window::{append, clamp, fold_window, fold_row, keeps_on, lemma_fold_window_keeps, lemma_fold_window_still,
    lemma_fold_window_single};

verus! {

/// The side of the square grid the hopper simulation is laid out for.
pub const N: usize = 2000;

/// `coord` clamped to a grid coordinate in `0 ..= N - 1`.
pub open spec fn spec_bgc(coord: int) -> int {
    clamp(coord, N as int)
}

/// Bounded grid coordinate: `coord` clamped to `0 ..= N - 1`.
pub fn bgc(coord: i32) -> (r: i32)
    ensures
        r == spec_bgc(coord as int),
        0 <= r < N,
        0 <= coord < N ==> r == coord,
        coord < 0 ==> r == 0,
        coord >= N ==> r == N - 1,
{
    (N as i32 - 1).min(0i32.max(coord))
}

/// A transfer between a chest and a hopper, with the positions reported
/// for each.
#[derive(Clone, Copy, Debug, PartialEq, Eq, Structural)]
pub enum Transfer {
    /// A full hopper emptied itself into the empty chest it points at.
    HopperEmptied { chest_x: i32, chest_y: i32, hopper_x: i32, hopper_y: i32 },
    /// An empty hopper took the item of a chest.
    HopperFilled { chest_x: i32, chest_y: i32, hopper_x: i32, hopper_y: i32, item: ItemType },
    /// An empty hopper emptied a chest it does not point at.
    ChestEmptied { chest_x: i32, chest_y: i32, hopper_x: i32, hopper_y: i32 },
    /// A full hopper gave its item to the chest it points at.
    ChestFilled { chest_x: i32, chest_y: i32, hopper_x: i32, hopper_y: i32, item: ItemType },
}

/// Whether `b` points at `(x, y)`.
pub open spec fn points_at(b: Block, x: int, y: int) -> bool {
    b.direction_x == x && b.direction_y == y
}

/// The pull of the hopper `this` at `(x, y)` as a step over the cells
/// `(i, j)` of its window: the window cell is taken to stand at its offset
/// in the window plus `(x - 1, y - 1)`; if the hopper does not point there,
/// the cell is a chest and the hopper is empty, the hopper's next block
/// takes the chest's item.
pub open spec fn pull_step(g: Seq<Seq<Block>>, this: Block, x: int, y: int) -> spec_fn(Block, int, int) -> Block {
    |acc: Block, i: int, j: int| {
        let nx = i - spec_bgc(x - 1) + x - 1;
        let ny = j - spec_bgc(y - 1) + y - 1;
        if !points_at(this, nx, ny) && g[i][j].block_type == BlockType::Chest
            && this.item_type == ItemType::Empty {
            with_item(acc, g[i][j].item_type)
        } else {
            acc
        }
    }
}

/// The push that the hopper `this` at `(x, y)` of the grid `g` reports, if
/// it makes one: it is full and points at an empty chest.
pub open spec fn spec_push_transfer(this: Block, x: i32, y: i32, g: Seq<Seq<Block>>) -> Option<Transfer> {
    let cv = g[this.direction_x as int][this.direction_y as int];
    if cv.block_type == BlockType::Chest && cv.item_type == ItemType::Empty && this.item_type != ItemType::Empty {
        Some(Transfer::HopperEmptied { chest_x: this.direction_x, chest_y: this.direction_y, hopper_x: x, hopper_y: y })
    } else {
        None
    }
}

/// The pulls that the hopper `this` at `(x, y)` reports, as a step over the
/// cells `(i, j)` of its window: one whenever `pull_step` takes an item,
/// with the chest at its position as `pull_step` takes it.
pub open spec fn pull_log_step(g: Seq<Seq<Block>>, this: Block, x: i32, y: i32)
    -> spec_fn(Seq<Transfer>, int, int) -> Seq<Transfer> {
    |acc: Seq<Transfer>, i: int, j: int| {
        let nx = i - spec_bgc(x - 1) + x - 1;
        let ny = j - spec_bgc(y - 1) + y - 1;
        if !points_at(this, nx, ny) && g[i][j].block_type == BlockType::Chest
            && this.item_type == ItemType::Empty {
            acc.push(Transfer::HopperFilled {
                chest_x: nx as i32,
                chest_y: ny as i32,
                hopper_x: x,
                hopper_y: y,
                item: g[i][j].item_type,
            })
        } else {
            acc
        }
    }
}

/// `log` with the transfers that `spec_update` makes appended: for a
/// hopper, its push, then its pulls in window order.
pub open spec fn spec_update_log(this: Block, x: i32, y: i32, g: Seq<Seq<Block>>, log: Seq<Transfer>) -> Seq<Transfer> {
    if this.block_type == BlockType::Hopper {
        fold_window(
            pull_log_step(g, this, x, y),
            append(log, spec_push_transfer(this, x, y, g)),
            spec_bgc(x - 1),
            spec_bgc(x + 1) + 1,
            spec_bgc(y - 1),
            spec_bgc(y + 1) + 1,
        )
    } else {
        log
    }
}

/// What the block `this` at `(x, y)` does to its own next block `nxtv`:
/// a hopper first empties itself if it is full and points at an empty
/// chest, then pulls from the chests of its window (see `pull_step`).
/// Other blocks do nothing.
pub open spec fn spec_update(this: Block, x: int, y: int, g: Seq<Seq<Block>>, nxtv: Block) -> Block {
    if this.block_type == BlockType::Hopper {
        let cv = g[this.direction_x as int][this.direction_y as int];
        let pushed = if cv.block_type == BlockType::Chest && cv.item_type == ItemType::Empty
            && this.item_type != ItemType::Empty {
            with_item(nxtv, ItemType::Empty)
        } else {
            nxtv
        };
        fold_window(
            pull_step(g, this, x, y),
            pushed,
            spec_bgc(x - 1),
            spec_bgc(x + 1) + 1,
            spec_bgc(y - 1),
            spec_bgc(y + 1) + 1,
        )
    } else {
        nxtv
    }
}

/// Whether `update` can run for the block `this` at `(x, y)` of a grid of
/// `rows` by `cols` cells: a hopper must point inside the grid, its window
/// must lie inside the grid, and its coordinates must leave room in `i32`.
pub open spec fn update_fits(this: Block, x: int, y: int, rows: int, cols: int) -> bool {
    this.block_type == BlockType::Hopper ==> {
        &&& 0 <= this.direction_x < rows
        &&& 0 <= this.direction_y < cols
        &&& spec_bgc(x + 1) < rows
        &&& spec_bgc(y + 1) < cols
        &&& i32::MIN < x < i32::MAX
        &&& i32::MIN < y < i32::MAX
    }
}

/// Applies `spec_update` for the block `this` at `(x, y)` of `grid` to its
/// next block `nxtv`, and appends the transfers it makes to `log`.
pub fn update(this: &Block, x: i32, y: i32, grid: &Grid<Block>, nxtv: &mut Block, log: &mut Vec<Transfer>)
    requires
        update_fits(*this, x as int, y as int, grid.rows() as int, grid.cols() as int),
    ensures
        *final(nxtv) == spec_update(*this, x as int, y as int, grid@, *old(nxtv)),
        final(log)@ == spec_update_log(*this, x, y, grid@, old(log)@),
{
    let ghost log0 = log@;
    match this.block_type {
        BlockType::Hopper => {
            let (rows, cols) = grid.shape();
            let cv = grid.at(this.direction_x as usize, this.direction_y as usize);
            match cv.block_type {
                BlockType::Chest => {
                    match cv.item_type {
                        ItemType::Empty => {
                            match this.item_type {
                                ItemType::Empty => {},
                                _ => {
                                    log.push(Transfer::HopperEmptied {
                                        chest_x: this.direction_x,
                                        chest_y: this.direction_y,
                                        hopper_x: x,
                                        hopper_y: y,
                                    });
                                    nxtv.item_type = ItemType::Empty;
                                },
                            }
                        },
                        _ => {},
                    }
                },
                _ => {},
            }
            let ghost start = *nxtv;
            let ghost f = pull_step(grid@, *this, x as int, y as int);
            let ghost lf = pull_log_step(grid@, *this, x, y);
            let ghost lstart = log@;
            assert(lstart == append(log0, spec_push_transfer(*this, x, y, grid@)));
            let r0 = bgc(x - 1);
            let r1 = bgc(x + 1);
            let c0 = bgc(y - 1);
            let c1 = bgc(y + 1);
            let mut i = r0;
            while i <= r1
                invariant
                    fits(grid@, (rows, cols)),
                    rows == grid.rows(),
                    cols == grid.cols(),
                    update_fits(*this, x as int, y as int, rows as int, cols as int),
                    this.block_type == BlockType::Hopper,
                    f == pull_step(grid@, *this, x as int, y as int),
                    r0 == spec_bgc(x - 1),
                    r1 == spec_bgc(x + 1),
                    c0 == spec_bgc(y - 1),
                    c1 == spec_bgc(y + 1),
                    r0 <= i <= r1 + 1,
                    *nxtv == fold_window(f, start, r0 as int, i as int, c0 as int, c1 + 1),
                    lf == pull_log_step(grid@, *this, x, y),
                    log@ == fold_window(lf, lstart, r0 as int, i as int, c0 as int, c1 + 1),
                decreases r1 + 1 - i,
            {
                let ghost row_start = *nxtv;
                let ghost log_start = log@;
                let mut j = c0;
                while j <= c1
                    invariant
                        fits(grid@, (rows, cols)),
                        rows == grid.rows(),
                        cols == grid.cols(),
                        update_fits(*this, x as int, y as int, rows as int, cols as int),
                        this.block_type == BlockType::Hopper,
                        f == pull_step(grid@, *this, x as int, y as int),
                        r0 == spec_bgc(x - 1),
                        r1 == spec_bgc(x + 1),
                        c0 == spec_bgc(y - 1),
                        c1 == spec_bgc(y + 1),
                        r0 <= i <= r1,
                        c0 <= j <= c1 + 1,
                        *nxtv == fold_row(f, row_start, i as int, c0 as int, j as int),
                        lf == pull_log_step(grid@, *this, x, y),
                        log@ == fold_row(lf, log_start, i as int, c0 as int, j as int),
                    decreases c1 + 1 - j,
                {
                    let nv = grid.at(i as usize, j as usize);
                    let nx = (i - r0) + x - 1;
                    let ny = (j - c0) + y - 1;
                    if this.direction_x != nx || this.direction_y != ny {
                        match nv.block_type {
                            BlockType::Chest => {
                                match this.item_type {
                                    ItemType::Empty => {
                                        log.push(Transfer::HopperFilled {
                                            chest_x: nx,
                                            chest_y: ny,
                                            hopper_x: x,
                                            hopper_y: y,
                                            item: nv.item_type,
                                        });
                                        nxtv.item_type = nv.item_type;
                                    },
                                    _ => {},
                                }
                            },
                            _ => {},
                        }
                    }
                    j += 1;
                }
                i += 1;
            }
        },
        _ => {},
    }
}

/// What the block `this`, a neighbour of the cell `(nx, ny)` whose current
/// block is `cv`, does to that cell's next block `nxtv`: a hopper next to a
/// chest empties the chest when the hopper is empty and points elsewhere,
/// and fills it with its item when the hopper is full and points at it.
pub open spec fn spec_update_neighbour(this: Block, nx: int, ny: int, cv: Block, nxtv: Block) -> Block {
    if this.block_type == BlockType::Hopper && cv.block_type == BlockType::Chest {
        if this.item_type == ItemType::Empty {
            if !points_at(this, nx, ny) { with_item(nxtv, ItemType::Empty) } else { nxtv }
        } else {
            if points_at(this, nx, ny) { with_item(nxtv, this.item_type) } else { nxtv }
        }
    } else {
        nxtv
    }
}

/// The transfer that `spec_update_neighbour` makes, if any, with the chest
/// reported at `(nx, ny)` and the hopper at `(x, y)`.
pub open spec fn spec_neighbour_transfer(this: Block, x: i32, y: i32, nx: i32, ny: i32, cv: Block) -> Option<Transfer> {
    if this.block_type == BlockType::Hopper && cv.block_type == BlockType::Chest {
        if this.item_type == ItemType::Empty {
            if !points_at(this, nx as int, ny as int) {
                Some(Transfer::ChestEmptied { chest_x: nx, chest_y: ny, hopper_x: x, hopper_y: y })
            } else {
                None
            }
        } else {
            if points_at(this, nx as int, ny as int) {
                Some(Transfer::ChestFilled { chest_x: nx, chest_y: ny, hopper_x: x, hopper_y: y, item: this.item_type })
            } else {
                None
            }
        }
    } else {
        None
    }
}

/// Applies the rule of `spec_update_neighbour` for the block `this`, given
/// the position `(x, y)`, to the next block `nxtv` of the cell `(nx, ny)`,
/// whose current block is `cv`, and appends the transfer it makes to `log`.
/// The position `(x, y)` only enters the report.
pub fn update_neighbour(
    this: &Block,
    x: i32,
    y: i32,
    nx: i32,
    ny: i32,
    cv: &Block,
    nxtv: &mut Block,
    log: &mut Vec<Transfer>,
)
    ensures
        *final(nxtv) == spec_update_neighbour(*this, nx as int, ny as int, *cv, *old(nxtv)),
        final(log)@ == append(old(log)@, spec_neighbour_transfer(*this, x, y, nx, ny, *cv)),
{
    match this.block_type {
        BlockType::Hopper => {
            match cv.block_type {
                BlockType::Chest => {
                    match this.item_type {
                        ItemType::Empty => {
                            if this.direction_x != nx || this.direction_y != ny {
                                log.push(Transfer::ChestEmptied { chest_x: nx, chest_y: ny, hopper_x: x, hopper_y: y });
                                nxtv.item_type = ItemType::Empty;
                            }
                        },
                        _ => {
                            if this.direction_x == nx && this.direction_y == ny {
                                log.push(Transfer::ChestFilled {
                                    chest_x: nx,
                                    chest_y: ny,
                                    hopper_x: x,
                                    hopper_y: y,
                                    item: this.item_type,
                                });
                                nxtv.item_type = this.item_type;
                            }
                        },
                    }
                },
                _ => {},
            }
        },
        _ => {},
    }
}

/// The neighbour rule for the cell `(x, y)`, whose current block is `cv`,
/// as a step over the cells `(i, j)` of its window.
pub open spec fn neighbour_step(g: Seq<Seq<Block>>, x: int, y: int, cv: Block) -> spec_fn(Block, int, int) -> Block {
    |acc: Block, i: int, j: int| spec_update_neighbour(g[i][j], x, y, cv, acc)
}

/// The reports of the neighbour rule for the cell `(x, y)`, whose current
/// block is `cv`, as a step over the cells `(i, j)` of its window: each
/// block is reported at its offset in the window plus `(x - 1, y - 1)`.
pub open spec fn neighbour_log_step(g: Seq<Seq<Block>>, x: int, y: int, cv: Block)
    -> spec_fn(Seq<Transfer>, int, int) -> Seq<Transfer> {
    |acc: Seq<Transfer>, i: int, j: int|
        append(acc, spec_neighbour_transfer(g[i][j], (i - spec_bgc(x - 1) + x - 1) as i32,
            (j - spec_bgc(y - 1) + y - 1) as i32, x as i32, y as i32, cv))
}

/// `log` with the transfers made for the cell `(x, y)` of the grid `g`
/// appended, in the order of `spec_next_cell`.
pub open spec fn spec_cell_log(g: Seq<Seq<Block>>, x: int, y: int, log: Seq<Transfer>) -> Seq<Transfer> {
    fold_window(
        neighbour_log_step(g, x, y, g[x][y]),
        spec_update_log(g[x][y], x as i32, y as i32, g, log),
        spec_bgc(x - 1),
        spec_bgc(x + 1) + 1,
        spec_bgc(y - 1),
        spec_bgc(y + 1) + 1,
    )
}

/// The next block of the cell `(x, y)` of the grid `g`: its current block,
/// then its own `spec_update`, then the rule of every block of the clamped
/// 3 by 3 window around it (itself included), row by row.
pub open spec fn spec_next_cell(g: Seq<Seq<Block>>, x: int, y: int) -> Block {
    let cv = g[x][y];
    fold_window(
        neighbour_step(g, x, y, cv),
        spec_update(cv, x, y, g, cv),
        spec_bgc(x - 1),
        spec_bgc(x + 1) + 1,
        spec_bgc(y - 1),
        spec_bgc(y + 1) + 1,
    )
}

/// Whether the cell `(x, y)` of the grid `g` of `rows` by `cols` cells can
/// be updated: it is a cell of the grid, its window lies inside the grid,
/// its coordinates leave room in `i32`, and a hopper there points inside
/// the grid.
pub open spec fn cell_fits(g: Seq<Seq<Block>>, x: int, y: int, rows: int, cols: int) -> bool {
    &&& 0 <= x < rows
    &&& 0 <= y < cols
    &&& spec_bgc(x + 1) < rows
    &&& spec_bgc(y + 1) < cols
    &&& x < i32::MAX
    &&& y < i32::MAX
    &&& update_fits(g[x][y], x, y, rows, cols)
}

/// The next block of the cell `(x, y)` of `grid`; the transfers made are
/// appended to `log`.
pub fn next_cell(grid: &Grid<Block>, x: usize, y: usize, log: &mut Vec<Transfer>) -> (b: Block)
    requires
        cell_fits(grid@, x as int, y as int, grid.rows() as int, grid.cols() as int),
    ensures
        b == spec_next_cell(grid@, x as int, y as int),
        final(log)@ == spec_cell_log(grid@, x as int, y as int, old(log)@),
{
    let (rows, cols) = grid.shape();
    let cv = grid.at(x, y);
    let xi = x as i32;
    let yi = y as i32;
    let mut nxtv = cv;
    update(&cv, xi, yi, grid, &mut nxtv, log);
    let ghost start = nxtv;
    let ghost f = neighbour_step(grid@, x as int, y as int, cv);
    let ghost lf = neighbour_log_step(grid@, x as int, y as int, cv);
    let ghost lstart = log@;
    let r0 = bgc(xi - 1);
    let r1 = bgc(xi + 1);
    let c0 = bgc(yi - 1);
    let c1 = bgc(yi + 1);
    let mut i = r0;
    while i <= r1
        invariant
            fits(grid@, (rows, cols)),
            rows == grid.rows(),
            cols == grid.cols(),
            cell_fits(grid@, x as int, y as int, rows as int, cols as int),
            xi == x,
            yi == y,
            cv == grid@[x as int][y as int],
            f == neighbour_step(grid@, x as int, y as int, cv),
            r0 == spec_bgc(x - 1),
            r1 == spec_bgc(x + 1),
            c0 == spec_bgc(y - 1),
            c1 == spec_bgc(y + 1),
            r0 <= i <= r1 + 1,
            nxtv == fold_window(f, start, r0 as int, i as int, c0 as int, c1 + 1),
            lf == neighbour_log_step(grid@, x as int, y as int, cv),
            log@ == fold_window(lf, lstart, r0 as int, i as int, c0 as int, c1 + 1),
        decreases r1 + 1 - i,
    {
        let ghost row_start = nxtv;
        let ghost log_start = log@;
        let mut j = c0;
        while j <= c1
            invariant
                fits(grid@, (rows, cols)),
                rows == grid.rows(),
                cols == grid.cols(),
                cell_fits(grid@, x as int, y as int, rows as int, cols as int),
                xi == x,
                yi == y,
                cv == grid@[x as int][y as int],
                f == neighbour_step(grid@, x as int, y as int, cv),
                r0 == spec_bgc(x - 1),
                r1 == spec_bgc(x + 1),
                c0 == spec_bgc(y - 1),
                c1 == spec_bgc(y + 1),
                r0 <= i <= r1,
                c0 <= j <= c1 + 1,
                nxtv == fold_row(f, row_start, i as int, c0 as int, j as int),
                lf == neighbour_log_step(grid@, x as int, y as int, cv),
                log@ == fold_row(lf, log_start, i as int, c0 as int, j as int),
            decreases c1 + 1 - j,
        {
            let nv = grid.at(i as usize, j as usize);
            update_neighbour(&nv, (i - r0) + xi - 1, (j - c0) + yi - 1, xi, yi, &cv, &mut nxtv, log);
            j += 1;
        }
        i += 1;
    }
    nxtv
}

/// What `spec_update` keeps: the block type and direction of the next
/// block; a block other than a hopper changes nothing; and nothing changes
/// when the grid holds no item and neither does the next block.
proof fn lemma_update_laws(this: Block, x: int, y: int, g: Seq<Seq<Block>>, nxtv: Block, rows: usize, cols: usize)
    requires
        fits(g, (rows, cols)),
        update_fits(this, x, y, rows as int, cols as int),
    ensures
        same_layout(spec_update(this, x, y, g, nxtv), nxtv),
        this.block_type != BlockType::Hopper ==> spec_update(this, x, y, g, nxtv) == nxtv,
        no_items(g) && this.item_type == ItemType::Empty && nxtv.item_type == ItemType::Empty
            ==> spec_update(this, x, y, g, nxtv) == nxtv,
{
    if this.block_type == BlockType::Hopper {
        let quiet = no_items(g) && this.item_type == ItemType::Empty && nxtv.item_type == ItemType::Empty;
        let p = |b: Block| same_layout(b, nxtv) && (quiet ==> b == nxtv);
        let f = pull_step(g, this, x, y);
        let r0 = spec_bgc(x - 1);
        let r_end = spec_bgc(x + 1) + 1;
        let c0 = spec_bgc(y - 1);
        let c_end = spec_bgc(y + 1) + 1;
        assert(keeps_on(f, p, r0, r_end, c0, c_end)) by {
            assert forall|a: Block, i: int, j: int|
                r0 <= i < r_end && c0 <= j < c_end && p(a) implies #[trigger] p(f(a, i, j)) by {
                assert(0 <= i < rows && 0 <= j < cols);
                assert(g[i].len() == cols);
                if no_items(g) {
                    assert(g[i][j].item_type == ItemType::Empty);
                }
            }
        }
        let cv = g[this.direction_x as int][this.direction_y as int];
        let pushed = if cv.block_type == BlockType::Chest && cv.item_type == ItemType::Empty
            && this.item_type != ItemType::Empty {
            with_item(nxtv, ItemType::Empty)
        } else {
            nxtv
        };
        assert(p(pushed));
        lemma_fold_window_keeps(f, p, pushed, r0, r_end, c0, c_end);
    }
}

/// What a cell keeps through `spec_next_cell`: its block type and
/// direction; a cell that is neither chest nor hopper keeps its block; and
/// when the grid has no hopper, or holds no item, every cell keeps its
/// block.
pub proof fn lemma_next_cell_laws(g: Seq<Seq<Block>>, x: int, y: int, rows: usize, cols: usize)
    requires
        fits(g, (rows, cols)),
        cell_fits(g, x, y, rows as int, cols as int),
    ensures
        same_layout(spec_next_cell(g, x, y), g[x][y]),
        !is_container(g[x][y]) ==> spec_next_cell(g, x, y) == g[x][y],
        no_hoppers(g) || no_items(g) ==> spec_next_cell(g, x, y) == g[x][y],
{
    let cv = g[x][y];
    assert(g[x].len() == cols);
    let start = spec_update(cv, x, y, g, cv);
    lemma_update_laws(cv, x, y, g, cv, rows, cols);
    if no_items(g) {
        assert(cv.item_type == ItemType::Empty);
    }
    if no_hoppers(g) {
        assert(cv.block_type != BlockType::Hopper);
    }
    let quiet = !is_container(cv) || no_hoppers(g) || no_items(g);
    let p = |b: Block| same_layout(b, cv) && (quiet ==> b == cv);
    let f = neighbour_step(g, x, y, cv);
    let r0 = spec_bgc(x - 1);
    let r_end = spec_bgc(x + 1) + 1;
    let c0 = spec_bgc(y - 1);
    let c_end = spec_bgc(y + 1) + 1;
    assert(keeps_on(f, p, r0, r_end, c0, c_end)) by {
        assert forall|a: Block, i: int, j: int|
            r0 <= i < r_end && c0 <= j < c_end && p(a) implies #[trigger] p(f(a, i, j)) by {
            assert(0 <= i < rows && 0 <= j < cols);
            assert(g[i].len() == cols);
            if no_hoppers(g) {
                assert(g[i][j].block_type != BlockType::Hopper);
            }
            if no_items(g) {
                assert(g[i][j].item_type == ItemType::Empty);
            }
        }
    }
    lemma_fold_window_keeps(f, p, start, r0, r_end, c0, c_end);
}

/// The next grid that `step` makes from the grid `g` into a next grid of
/// `rows` by `cols` cells.
pub open spec fn spec_step(g: Seq<Seq<Block>>, rows: nat, cols: nat) -> Seq<Seq<Block>> {
    Seq::new(rows, |x: int| Seq::new(cols, |y: int| spec_next_cell(g, x, y)))
}

/// The transfers of every cell as a step over the cells, acting on the log.
pub open spec fn cell_log_step(g: Seq<Seq<Block>>) -> spec_fn(Seq<Transfer>, int, int) -> Seq<Transfer> {
    |acc: Seq<Transfer>, x: int, y: int| spec_cell_log(g, x, y, acc)
}

/// `log` with the transfers that `step` makes into a next grid of `rows` by
/// `cols` cells appended: those of each cell, row by row.
pub open spec fn spec_step_log(g: Seq<Seq<Block>>, rows: int, cols: int, log: Seq<Transfer>) -> Seq<Transfer> {
    fold_window(cell_log_step(g), log, 0, rows, 0, cols)
}

/// Whether `step` can run from the grid `g` of `grid_rows` by `grid_cols`
/// cells into a next grid of `rows` by `cols` cells: a next grid without
/// cells always can; otherwise the next grid is no larger than the grid,
/// the window of each of its cells lies inside the grid, the coordinates
/// fit in `i32`, and every hopper among those cells points inside the grid.
pub open spec fn step_fits(g: Seq<Seq<Block>>, grid_rows: int, grid_cols: int, rows: int, cols: int) -> bool {
    rows > 0 && cols > 0 ==> {
        &&& rows <= grid_rows
        &&& cols <= grid_cols
        &&& spec_bgc(rows) < grid_rows
        &&& spec_bgc(cols) < grid_cols
        &&& rows <= i32::MAX
        &&& cols <= i32::MAX
        &&& forall|x: int, y: int| 0 <= x < rows && 0 <= y < cols ==>
            #[trigger] update_fits(g[x][y], x, y, grid_rows, grid_cols)
    }
}

/// One step of the hopper simulation: every cell of `next_grid` becomes
/// the next block of the same cell of `grid`.
pub fn step(grid: &Grid<Block>, next_grid: &mut Grid<Block>, log: &mut Vec<Transfer>)
    requires
        step_fits(grid@, grid.rows() as int, grid.cols() as int, old(next_grid).rows() as int, old(next_grid).cols() as int),
    ensures
        final(next_grid).rows() == old(next_grid).rows(),
        final(next_grid).cols() == old(next_grid).cols(),
        final(next_grid)@ == spec_step(grid@, old(next_grid).rows(), old(next_grid).cols()),
        forall|x: int, y: int| 0 <= x < old(next_grid).rows() && 0 <= y < old(next_grid).cols()
            ==> #[trigger] final(next_grid)@[x][y] == spec_next_cell(grid@, x, y),
        forall|x: int, y: int| 0 <= x < old(next_grid).rows() && 0 <= y < old(next_grid).cols() ==> {
            &&& same_layout(#[trigger] final(next_grid)@[x][y], grid@[x][y])
            &&& !is_container(grid@[x][y]) ==> final(next_grid)@[x][y] == grid@[x][y]
            &&& no_hoppers(grid@) || no_items(grid@) ==> final(next_grid)@[x][y] == grid@[x][y]
        },
        final(log)@ == spec_step_log(grid@, old(next_grid).rows() as int, old(next_grid).cols() as int, old(log)@),
{
    let ghost n0 = next_grid@;
    let ghost log0 = log@;
    let ghost lf = cell_log_step(grid@);
    let (rows, cols) = next_grid.shape();
    let (gr, gc) = grid.shape();
    let mut x: usize = 0;
    while x < rows
        invariant
            step_fits(grid@, gr as int, gc as int, rows as int, cols as int),
            gr == grid.rows(),
            gc == grid.cols(),
            rows == next_grid.rows(),
            cols == next_grid.cols(),
            fits(next_grid@, (rows, cols)),
            x <= rows,
            forall|a: int, b: int| 0 <= a < x && 0 <= b < cols ==>
                #[trigger] next_grid@[a][b] == spec_next_cell(grid@, a, b),
            lf == cell_log_step(grid@),
            log@ == fold_window(lf, log0, 0, x as int, 0, cols as int),
        decreases rows - x,
    {
        let ghost log_start = log@;
        let mut y: usize = 0;
        while y < cols
            invariant
                step_fits(grid@, gr as int, gc as int, rows as int, cols as int),
                gr == grid.rows(),
                gc == grid.cols(),
                rows == next_grid.rows(),
                cols == next_grid.cols(),
                fits(next_grid@, (rows, cols)),
                x < rows,
                y <= cols,
                forall|a: int, b: int| 0 <= a < rows && 0 <= b < cols && (a < x || (a == x && b < y)) ==>
                    #[trigger] next_grid@[a][b] == spec_next_cell(grid@, a, b),
                lf == cell_log_step(grid@),
                log@ == fold_row(lf, log_start, x as int, 0, y as int),
            decreases cols - y,
        {
            assert(update_fits(grid@[x as int][y as int], x as int, y as int, gr as int, gc as int));
            let b = next_cell(grid, x, y, log);
            next_grid.put(x, y, b);
            y += 1;
        }
        x += 1;
    }
    assert(next_grid@ =~~= spec_step(grid@, rows as nat, cols as nat));
    assert forall|a: int, b: int| 0 <= a < rows && 0 <= b < cols implies {
        &&& same_layout(next_grid@[a][b], grid@[a][b])
        &&& !is_container(grid@[a][b]) ==> next_grid@[a][b] == grid@[a][b]
        &&& no_hoppers(grid@) || no_items(grid@) ==> next_grid@[a][b] == grid@[a][b]
    } by {
        assert(update_fits(grid@[a][b], a, b, gr as int, gc as int));
        lemma_next_cell_laws(grid@, a, b, gr, gc);
    }
}

/// Whether `step` can run from `grid` into `next_grid` (`step_fits`).
pub fn can_step(grid: &Grid<Block>, next_grid: &Grid<Block>) -> (r: bool)
    ensures
        r == step_fits(grid@, grid.rows() as int, grid.cols() as int, next_grid.rows() as int, next_grid.cols() as int),
{
    let (gr, gc) = grid.shape();
    let (rows, cols) = next_grid.shape();
    if rows == 0 || cols == 0 {
        return true;
    }
    if rows > gr || cols > gc || rows > i32::MAX as usize || cols > i32::MAX as usize {
        return false;
    }
    if !((bgc(rows as i32) as usize) < gr && (bgc(cols as i32) as usize) < gc) {
        return false;
    }
    let mut x: usize = 0;
    while x < rows
        invariant
            fits(grid@, (gr, gc)),
            gr == grid.rows(),
            gc == grid.cols(),
            rows == next_grid.rows(),
            cols == next_grid.cols(),
            rows <= gr,
            cols <= gc,
            rows <= i32::MAX,
            cols <= i32::MAX,
            rows > 0,
            cols > 0,
            spec_bgc(rows as int) < gr,
            spec_bgc(cols as int) < gc,
            x <= rows,
            forall|a: int, b: int| 0 <= a < x && 0 <= b < cols ==>
                #[trigger] update_fits(grid@[a][b], a, b, gr as int, gc as int),
        decreases rows - x,
    {
        let mut y: usize = 0;
        while y < cols
            invariant
                fits(grid@, (gr, gc)),
                gr == grid.rows(),
                gc == grid.cols(),
                rows == next_grid.rows(),
                cols == next_grid.cols(),
                rows <= gr,
                cols <= gc,
                rows <= i32::MAX,
                cols <= i32::MAX,
                rows > 0,
                cols > 0,
                spec_bgc(rows as int) < gr,
                spec_bgc(cols as int) < gc,
                x < rows,
                y <= cols,
                forall|a: int, b: int| 0 <= a < rows && 0 <= b < cols && (a < x || (a == x && b < y)) ==>
                    #[trigger] update_fits(grid@[a][b], a, b, gr as int, gc as int),
            decreases cols - y,
        {
            let b = grid.at(x, y);
            if b.block_type == BlockType::Hopper {
                if b.direction_x < 0 || b.direction_y < 0 || b.direction_x as usize >= gr
                    || b.direction_y as usize >= gc {
                    assert(!update_fits(grid@[x as int][y as int], x as int, y as int, gr as int, gc as int));
                    return false;
                }
            }
            y += 1;
        }
        x += 1;
    }
    true
}

/// Items are moved, never made or lost, by a step of an `N` by `N` grid
/// with a single hopper, away from the first row and column, that points
/// at itself or a neighbour and has exactly one chest among its neighbours:
/// the next grid holds as many items as the grid.
#[verifier::rlimit(40)]
pub proof fn lemma_step_conserves_items(g: Seq<Seq<Block>>, hx: int, hy: int, cx: int, cy: int)
    requires
        fits(g, (N, N)),
        1 <= hx < N,
        1 <= hy < N,
        g[hx][hy].block_type == BlockType::Hopper,
        forall|i: int, j: int| 0 <= i < N && 0 <= j < N && !(i == hx && j == hy)
            ==> (#[trigger] g[i][j]).block_type != BlockType::Hopper,
        0 <= g[hx][hy].direction_x < N,
        0 <= g[hx][hy].direction_y < N,
        near(g[hx][hy].direction_x as int, g[hx][hy].direction_y as int, hx, hy),
        0 <= cx < N,
        0 <= cy < N,
        near(cx, cy, hx, hy),
        !(cx == hx && cy == hy),
        g[cx][cy].block_type == BlockType::Chest,
        forall|i: int, j: int| 0 <= i < N && 0 <= j < N && near(i, j, hx, hy) && !(i == cx && j == cy)
            ==> (#[trigger] g[i][j]).block_type != BlockType::Chest,
    ensures
        step_fits(g, N as int, N as int, N as int, N as int),
        item_count(spec_step(g, N as nat, N as nat), N as int, N as int) == item_count(g, N as int, N as int),
{
    let hop = g[hx][hy];
    let che = g[cx][cy];
    let n = spec_step(g, N as nat, N as nat);
    assert forall|x: int, y: int| 0 <= x < N && 0 <= y < N implies
        #[trigger] update_fits(g[x][y], x, y, N as int, N as int) by {}
    assert(step_fits(g, N as int, N as int, N as int, N as int));
    // Every cell but the hopper and its chest keeps its block.
    assert forall|x: int, y: int| 0 <= x < N && 0 <= y < N && !(x == hx && y == hy) && !(x == cx && y == cy)
        implies n[x][y] == g[x][y] by {
        assert(update_fits(g[x][y], x, y, N as int, N as int));
        lemma_next_cell_laws(g, x, y, N, N);
        if is_container(g[x][y]) {
            let cv = g[x][y];
            assert(g[x].len() == N);
            assert(cv.block_type == BlockType::Chest);
            assert(!near(x, y, hx, hy));
            let f = neighbour_step(g, x, y, cv);
            assert forall|a: Block, i: int, j: int|
                spec_bgc(x - 1) <= i < spec_bgc(x + 1) + 1 && spec_bgc(y - 1) <= j < spec_bgc(y + 1) + 1
                implies #[trigger] f(a, i, j) == a by {
                assert(g[i].len() == N);
                assert(!(i == hx && j == hy));
            }
            lemma_fold_window_still(f, spec_update(cv, x, y, g, cv), spec_bgc(x - 1), spec_bgc(x + 1) + 1,
                spec_bgc(y - 1), spec_bgc(y + 1) + 1);
        }
    }
    // The hopper: no neighbour acts on it; it pushes and pulls only with its chest.
    assert(g[hx].len() == N);
    let pushed = if g[hop.direction_x as int][hop.direction_y as int].block_type == BlockType::Chest
        && g[hop.direction_x as int][hop.direction_y as int].item_type == ItemType::Empty
        && hop.item_type != ItemType::Empty {
        with_item(hop, ItemType::Empty)
    } else {
        hop
    };
    let pf = pull_step(g, hop, hx, hy);
    assert forall|a: Block, i: int, j: int|
        spec_bgc(hx - 1) <= i < spec_bgc(hx + 1) + 1 && spec_bgc(hy - 1) <= j < spec_bgc(hy + 1) + 1
            && !(i == cx && j == cy) implies #[trigger] pf(a, i, j) == a by {
        assert(g[i].len() == N);
    }
    lemma_fold_window_single(pf, pushed, spec_bgc(hx - 1), spec_bgc(hx + 1) + 1, spec_bgc(hy - 1),
        spec_bgc(hy + 1) + 1, cx, cy);
    let hf = neighbour_step(g, hx, hy, hop);
    assert forall|a: Block, i: int, j: int|
        spec_bgc(hx - 1) <= i < spec_bgc(hx + 1) + 1 && spec_bgc(hy - 1) <= j < spec_bgc(hy + 1) + 1
        implies #[trigger] hf(a, i, j) == a by {}
    lemma_fold_window_still(hf, spec_update(hop, hx, hy, g, hop), spec_bgc(hx - 1), spec_bgc(hx + 1) + 1,
        spec_bgc(hy - 1), spec_bgc(hy + 1) + 1);
    assert(n[hx][hy] == pf(pushed, cx, cy));
    // The chest: only the hopper acts on it.
    assert(g[cx].len() == N);
    let cf = neighbour_step(g, cx, cy, che);
    assert forall|a: Block, i: int, j: int|
        spec_bgc(cx - 1) <= i < spec_bgc(cx + 1) + 1 && spec_bgc(cy - 1) <= j < spec_bgc(cy + 1) + 1
            && !(i == hx && j == hy) implies #[trigger] cf(a, i, j) == a by {
        assert(g[i].len() == N);
    }
    lemma_fold_window_single(cf, che, spec_bgc(cx - 1), spec_bgc(cx + 1) + 1, spec_bgc(cy - 1),
        spec_bgc(cy + 1) + 1, hx, hy);
    assert(n[cx][cy] == spec_update_neighbour(hop, cx, cy, che, che));
    let d_is_chest = hop.direction_x == cx && hop.direction_y == cy;
    if !d_is_chest {
        assert(g[hop.direction_x as int].len() == N);
        assert(g[hop.direction_x as int][hop.direction_y as int].block_type != BlockType::Chest);
    }
    lemma_item_count_two(g, n, N as int, N as int, hx, hy, cx, cy);
    assert(holds_item(n[hx][hy]) + holds_item(n[cx][cy]) == holds_item(hop) + holds_item(che));
}

/// The neighbour rule, case by case: a full hopper next to a chest it
/// points at fills that chest with its own item, whatever the chest holds;
/// an empty hopper next to a chest it does not point at empties the chest;
/// each of these reports one transfer, and nothing else changes the block
/// or reports anything.
pub proof fn lemma_neighbour_rule(this: Block, x: i32, y: i32, nx: i32, ny: i32, cv: Block, nxtv: Block, log: Seq<Transfer>)
    ensures
        this.block_type == BlockType::Hopper && cv.block_type == BlockType::Chest
            && this.item_type != ItemType::Empty && this.direction_x == nx && this.direction_y == ny ==> {
            &&& spec_update_neighbour(this, nx as int, ny as int, cv, nxtv) == Block { item_type: this.item_type, ..nxtv }
            &&& append(log, spec_neighbour_transfer(this, x, y, nx, ny, cv)) == log.push(
                Transfer::ChestFilled { chest_x: nx, chest_y: ny, hopper_x: x, hopper_y: y, item: this.item_type })
        },
        this.block_type == BlockType::Hopper && cv.block_type == BlockType::Chest
            && this.item_type == ItemType::Empty && !(this.direction_x == nx && this.direction_y == ny) ==> {
            &&& spec_update_neighbour(this, nx as int, ny as int, cv, nxtv) == Block { item_type: ItemType::Empty, ..nxtv }
            &&& append(log, spec_neighbour_transfer(this, x, y, nx, ny, cv)) == log.push(
                Transfer::ChestEmptied { chest_x: nx, chest_y: ny, hopper_x: x, hopper_y: y })
        },
        !(this.block_type == BlockType::Hopper && cv.block_type == BlockType::Chest)
            || (this.item_type != ItemType::Empty && !(this.direction_x == nx && this.direction_y == ny))
            || (this.item_type == ItemType::Empty && this.direction_x == nx && this.direction_y == ny) ==> {
            &&& spec_update_neighbour(this, nx as int, ny as int, cv, nxtv) == nxtv
            &&& append(log, spec_neighbour_transfer(this, x, y, nx, ny, cv)) == log
        },
{
}

/// Whether `this` points at an empty chest of the grid `g`.
pub open spec fn points_at_empty_chest(this: Block, g: Seq<Seq<Block>>) -> bool {
    let d = g[this.direction_x as int][this.direction_y as int];
    d.block_type == BlockType::Chest && d.item_type == ItemType::Empty
}

/// Whether `(cx, cy)` is the only chest among the cell `(x, y)` and its
/// neighbours in a grid of `rows` by `cols` cells, and lies inside the
/// first `N` rows and columns.
pub open spec fn sole_chest_near(g: Seq<Seq<Block>>, cx: int, cy: int, x: int, y: int, rows: int, cols: int) -> bool {
    &&& 0 <= cx < rows
    &&& 0 <= cy < cols
    &&& cx < N
    &&& cy < N
    &&& near(cx, cy, x, y)
    &&& g[cx][cy].block_type == BlockType::Chest
    &&& forall|p: int, q: int| 0 <= p < rows && 0 <= q < cols && near(p, q, x, y) && !(p == cx && q == cy)
        ==> (#[trigger] g[p][q]).block_type != BlockType::Chest
}

/// A hopper's own update, for a hopper away from the first row and column:
/// a full hopper never pulls, and ends empty exactly when it points at an
/// empty chest; an empty hopper whose only neighbouring chest is full and
/// not pointed at takes that chest's item. The block type and direction
/// stay those of `nxtv`.
pub proof fn lemma_update_rules(
    this: Block,
    x: int,
    y: int,
    g: Seq<Seq<Block>>,
    nxtv: Block,
    rows: usize,
    cols: usize,
    cx: int,
    cy: int,
)
    requires
        fits(g, (rows, cols)),
        this.block_type == BlockType::Hopper,
        update_fits(this, x, y, rows as int, cols as int),
        1 <= x < N,
        1 <= y < N,
    ensures
        this.item_type != ItemType::Empty && points_at_empty_chest(this, g)
            ==> spec_update(this, x, y, g, nxtv) == with_item(nxtv, ItemType::Empty),
        this.item_type != ItemType::Empty && !points_at_empty_chest(this, g)
            ==> spec_update(this, x, y, g, nxtv) == nxtv,
        this.item_type == ItemType::Empty && sole_chest_near(g, cx, cy, x, y, rows as int, cols as int)
            && !(this.direction_x == cx && this.direction_y == cy)
            ==> spec_update(this, x, y, g, nxtv) == with_item(nxtv, g[cx][cy].item_type),
{
    let f = pull_step(g, this, x, y);
    let r0 = spec_bgc(x - 1);
    let r_end = spec_bgc(x + 1) + 1;
    let c0 = spec_bgc(y - 1);
    let c_end = spec_bgc(y + 1) + 1;
    let pushed = if g[this.direction_x as int][this.direction_y as int].block_type == BlockType::Chest
        && g[this.direction_x as int][this.direction_y as int].item_type == ItemType::Empty
        && this.item_type != ItemType::Empty {
        with_item(nxtv, ItemType::Empty)
    } else {
        nxtv
    };
    if this.item_type != ItemType::Empty {
        assert forall|a: Block, i: int, j: int| r0 <= i < r_end && c0 <= j < c_end implies #[trigger] f(a, i, j) == a by {}
        lemma_fold_window_still(f, pushed, r0, r_end, c0, c_end);
    }
    if this.item_type == ItemType::Empty && sole_chest_near(g, cx, cy, x, y, rows as int, cols as int)
        && !(this.direction_x == cx && this.direction_y == cy) {
        assert forall|a: Block, i: int, j: int| r0 <= i < r_end && c0 <= j < c_end && !(i == cx && j == cy)
            implies #[trigger] f(a, i, j) == a by {
            assert(0 <= i < rows && 0 <= j < cols);
            assert(g[i].len() == cols);
            assert(near(i, j, x, y));
        }
        lemma_fold_window_single(f, pushed, r0, r_end, c0, c_end, cx, cy);
    }
}

/// Every neighbour of a cell is visited: when exactly one block among the
/// cell `(x, y)` and its in-grid neighbours (inside the first `N` rows and
/// columns) is a hopper next to the chest at `(x, y)`, the chest's next
/// block is its block after its own update (none: it is a chest) with that
/// hopper's rule applied: emptied when the hopper is empty and points
/// elsewhere, filled with the hopper's item when it is full and points at
/// the chest, kept otherwise.
pub proof fn lemma_next_cell_single_hopper(
    g: Seq<Seq<Block>>,
    x: int,
    y: int,
    rows: usize,
    cols: usize,
    i: int,
    j: int,
)
    requires
        fits(g, (rows, cols)),
        cell_fits(g, x, y, rows as int, cols as int),
        x < N,
        y < N,
        g[x][y].block_type == BlockType::Chest,
        0 <= i < rows,
        0 <= j < cols,
        i < N,
        j < N,
        near(i, j, x, y),
        g[i][j].block_type == BlockType::Hopper,
        forall|p: int, q: int| 0 <= p < rows && 0 <= q < cols && near(p, q, x, y) && !(p == i && q == j)
            ==> (#[trigger] g[p][q]).block_type != BlockType::Hopper,
    ensures
        ({
            let h = g[i][j];
            let at = h.direction_x == x && h.direction_y == y;
            spec_next_cell(g, x, y) == if h.item_type == ItemType::Empty && !at {
                with_item(g[x][y], ItemType::Empty)
            } else if h.item_type != ItemType::Empty && at {
                with_item(g[x][y], h.item_type)
            } else {
                g[x][y]
            }
        }),
{
    let cv = g[x][y];
    let f = neighbour_step(g, x, y, cv);
    let r0 = spec_bgc(x - 1);
    let r_end = spec_bgc(x + 1) + 1;
    let c0 = spec_bgc(y - 1);
    let c_end = spec_bgc(y + 1) + 1;
    assert forall|a: Block, p: int, q: int| r0 <= p < r_end && c0 <= q < c_end && !(p == i && q == j)
        implies #[trigger] f(a, p, q) == a by {
        assert(0 <= p < rows && 0 <= q < cols);
        assert(g[p].len() == cols);
        assert(near(p, q, x, y));
    }
    lemma_fold_window_single(f, spec_update(cv, x, y, g, cv), r0, r_end, c0, c_end, i, j);
}

} // verus!
