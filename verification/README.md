# grid_sim

Cellular simulations on two-dimensional `ndarray` grids, verified with Verus.

- `src/grid.rs` — `Grid<T>`, an `ndarray::Array2` behind trusted calls
  (`from_elem`, `zeros`, `dim`, indexing), with checked public access.
- `src/block.rs` — the blocks of the item simulations (chests, hoppers, items).
- `src/window.rs` — clamping and row-by-row folds over a window of cells.
- `src/life.rs` — a life rule on integer grids.
- `src/exchange.rs`, `src/hopper.rs`, `src/sequential.rs` — three item
  transfer simulations between chests and hoppers, each with its own grid
  size `N` and bounded coordinate `bgc`. Their rules append the transfers
  they make to a log (`Transfer` values) for the caller to report.
- `app/main.rs` — the program: builds the grids, runs the steps (the
  per-cell ones in parallel with `rayon`) and prints the transfers and the
  grids.
