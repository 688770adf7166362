use vstd::prelude::*;
use ndarray::Array2;

use crate::block::Block;

verus! {

/// A two-dimensional grid of cells, held in an `ndarray::Array2`.
///
/// Verus sees nothing inside a grid: what it holds is named by
/// `block_cells` / `int_cells` and its shape by `block_shape` / `int_shape`,
/// and every operation on it is one of the trusted calls below.
#[verifier::external_body]
#[verifier::reject_recursive_types(T)]
pub struct Grid<T> {
    cells: Array2<T>,
}

/// The cells of a block grid, row by row.
pub uninterp spec fn block_cells(grid: Grid<Block>) -> Seq<Seq<Block>>;

/// The shape (rows, columns) that a block grid was made with.
pub uninterp spec fn block_shape(grid: Grid<Block>) -> (usize, usize);

/// The cells of an integer grid, row by row.
pub uninterp spec fn int_cells(grid: Grid<i32>) -> Seq<Seq<i32>>;

/// The shape (rows, columns) that an integer grid was made with.
pub uninterp spec fn int_shape(grid: Grid<i32>) -> (usize, usize);

/// `cells` has `shape.0` rows of `shape.1` cells each.
pub open spec fn fits<T>(cells: Seq<Seq<T>>, shape: (usize, usize)) -> bool {
    &&& cells.len() == shape.0
    &&& forall|i: int| 0 <= i < shape.0 ==> #[trigger] cells[i].len() == shape.1
}

/// `cells` with the cell at `(x, y)` replaced by `v`.
pub open spec fn set_cell<T>(cells: Seq<Seq<T>>, x: int, y: int, v: T) -> Seq<Seq<T>> {
    cells.update(x, cells[x].update(y, v))
}

/// A `rows` by `cols` table holding `v` everywhere.
pub open spec fn filled<T>(rows: nat, cols: nat, v: T) -> Seq<Seq<T>> {
    Seq::new(rows, |i: int| Seq::new(cols, |j: int| v))
}

/// A length, with 0 counted as 1.
pub open spec fn nonzero(d: usize) -> int {
    if d == 0 { 1 } else { d as int }
}

/// Whether `ndarray` accepts a shape: the product of its non-zero lengths
/// must fit in `isize`.
pub open spec fn shape_allowed(rows: usize, cols: usize) -> bool {
    nonzero(rows) * nonzero(cols) <= isize::MAX
}

/// `rows` fits under `m / cols` exactly when `rows * cols` fits under `m`.
proof fn lemma_shape_bound(rows: int, cols: int, m: int)
    requires
        cols > 0,
        m >= 0,
        rows >= 0,
    ensures
        (rows <= m / cols) <==> rows * cols <= m,
{
    let q = m / cols;
    let r = m % cols;
    vstd::arithmetic::div_mod::lemma_fundamental_div_mod(m, cols);
    assert(0 <= r < cols) by {
        vstd::arithmetic::div_mod::lemma_mod_bound(m, cols);
    }
    if rows <= q {
        assert(rows * cols <= q * cols) by (nonlinear_arith)
            requires rows <= q, cols > 0;
        assert(q * cols == cols * q) by (nonlinear_arith);
    } else {
        assert(rows * cols >= (q + 1) * cols) by (nonlinear_arith)
            requires rows >= q + 1, cols > 0;
        assert((q + 1) * cols == cols * q + cols) by (nonlinear_arith);
    }
}

impl View for Grid<Block> {
    type V = Seq<Seq<Block>>;

    open spec fn view(&self) -> Seq<Seq<Block>> {
        block_cells(*self)
    }
}

impl View for Grid<i32> {
    type V = Seq<Seq<i32>>;

    open spec fn view(&self) -> Seq<Seq<i32>> {
        int_cells(*self)
    }
}

impl Grid<Block> {
    /// Number of rows.
    pub open spec fn rows(self) -> nat {
        block_shape(self).0 as nat
    }

    /// Number of columns.
    pub open spec fn cols(self) -> nat {
        block_shape(self).1 as nat
    }

    /// Calls `Array2::from_elem((rows, cols), b)`: a grid of that shape
    /// holding `b` in every cell. `from_elem` panics on a shape whose
    /// non-zero lengths multiply past `isize::MAX`.
    #[verifier::external_body]
    pub(crate) fn from_elem(rows: usize, cols: usize, b: Block) -> (g: Grid<Block>)
        requires
            shape_allowed(rows, cols),
        ensures
            block_shape(g) == (rows, cols),
            block_cells(g) == filled(rows as nat, cols as nat, b),
    {
        Grid { cells: Array2::from_elem((rows, cols), b) }
    }

    /// Calls `ArrayBase::dim`: the shape the grid was made with, which is
    /// also how many rows, of how many cells each, it holds.
    #[verifier::external_body]
    pub(crate) fn shape(&self) -> (d: (usize, usize))
        ensures
            d == block_shape(*self),
            fits(block_cells(*self), d),
    {
        self.cells.dim()
    }

    /// Indexes the array at `[x, y]` (`Index` of `ArrayBase`, which panics
    /// out of bounds) and copies the cell out.
    #[verifier::external_body]
    pub(crate) fn at(&self, x: usize, y: usize) -> (b: Block)
        requires
            x < self.rows(),
            y < self.cols(),
        ensures
            b == block_cells(*self)[x as int][y as int],
    {
        self.cells[[x, y]]
    }

    /// Writes `b` at `[x, y]` through `IndexMut` of `ArrayBase`, which
    /// panics out of bounds; the shape and every other cell stay.
    #[verifier::external_body]
    pub(crate) fn put(&mut self, x: usize, y: usize, b: Block)
        requires
            x < old(self).rows(),
            y < old(self).cols(),
        ensures
            block_shape(*final(self)) == block_shape(*old(self)),
            block_cells(*final(self)) == set_cell(block_cells(*old(self)), x as int, y as int, b),
    {
        self.cells[[x, y]] = b;
    }
}

impl Grid<i32> {
    /// Number of rows.
    pub open spec fn rows(self) -> nat {
        int_shape(self).0 as nat
    }

    /// Number of columns.
    pub open spec fn cols(self) -> nat {
        int_shape(self).1 as nat
    }

    /// Calls `Array2::zeros((rows, cols))`: a grid of that shape holding 0
    /// in every cell. `zeros` panics on a shape whose non-zero lengths
    /// multiply past `isize::MAX`.
    #[verifier::external_body]
    pub(crate) fn zeros(rows: usize, cols: usize) -> (g: Grid<i32>)
        requires
            shape_allowed(rows, cols),
        ensures
            int_shape(g) == (rows, cols),
            int_cells(g) == filled(rows as nat, cols as nat, 0i32),
    {
        Grid { cells: Array2::zeros((rows, cols)) }
    }

    /// Calls `ArrayBase::dim`: the shape the grid was made with, which is
    /// also how many rows, of how many cells each, it holds.
    #[verifier::external_body]
    pub(crate) fn shape(&self) -> (d: (usize, usize))
        ensures
            d == int_shape(*self),
            fits(int_cells(*self), d),
    {
        self.cells.dim()
    }

    /// Indexes the array at `[x, y]` (`Index` of `ArrayBase`, which panics
    /// out of bounds) and copies the cell out.
    #[verifier::external_body]
    pub(crate) fn at(&self, x: usize, y: usize) -> (v: i32)
        requires
            x < self.rows(),
            y < self.cols(),
        ensures
            v == int_cells(*self)[x as int][y as int],
    {
        self.cells[[x, y]]
    }

    /// Writes `v` at `[x, y]` through `IndexMut` of `ArrayBase`, which
    /// panics out of bounds; the shape and every other cell stay.
    #[verifier::external_body]
    pub(crate) fn put(&mut self, x: usize, y: usize, v: i32)
        requires
            x < old(self).rows(),
            y < old(self).cols(),
        ensures
            int_shape(*final(self)) == int_shape(*old(self)),
            int_cells(*final(self)) == set_cell(int_cells(*old(self)), x as int, y as int, v),
    {
        self.cells[[x, y]] = v;
    }
}

impl Grid<Block> {
    /// A grid of `rows` by `cols` cells, each holding `fill`; `None` when
    /// the shape is too large for an array (`shape_allowed`).
    pub fn new(rows: usize, cols: usize, fill: Block) -> (r: Option<Grid<Block>>)
        ensures
            r is None <==> !shape_allowed(rows, cols),
            r matches Some(g) ==> block_shape(g) == (rows, cols) && block_cells(g) == filled(rows as nat, cols as nat, fill),
    {
        let r = if rows == 0 { 1 } else { rows };
        let c = if cols == 0 { 1 } else { cols };
        if r <= isize::MAX as usize / c {
            proof {
                lemma_shape_bound(r as int, c as int, isize::MAX as int);
            }
            Some(Grid::from_elem(rows, cols, fill))
        } else {
            proof {
                lemma_shape_bound(r as int, c as int, isize::MAX as int);
            }
            None
        }
    }

    /// The shape (rows, columns) of the grid.
    pub fn dim(&self) -> (d: (usize, usize))
        ensures
            d == block_shape(*self),
            fits(block_cells(*self), d),
    {
        self.shape()
    }

    /// The cell at `(x, y)`, or `None` outside the grid.
    pub fn get(&self, x: usize, y: usize) -> (r: Option<Block>)
        ensures
            r is Some <==> (x < self.rows() && y < self.cols()),
            r matches Some(c) ==> c == block_cells(*self)[x as int][y as int],
    {
        let (rows, cols) = self.shape();
        if x < rows && y < cols {
            Some(self.at(x, y))
        } else {
            None
        }
    }

    /// Writes `b` at `(x, y)` and returns `true`; outside the grid it
    /// returns `false` and leaves the grid as it was.
    pub fn set(&mut self, x: usize, y: usize, b: Block) -> (done: bool)
        ensures
            done <==> (x < old(self).rows() && y < old(self).cols()),
            block_shape(*final(self)) == block_shape(*old(self)),
            done ==> block_cells(*final(self)) == set_cell(block_cells(*old(self)), x as int, y as int, b),
            !done ==> block_cells(*final(self)) == block_cells(*old(self)),
    {
        let (rows, cols) = self.shape();
        if x < rows && y < cols {
            self.put(x, y, b);
            true
        } else {
            false
        }
    }
}

impl Grid<i32> {
    /// A grid of `rows` by `cols` cells, each holding 0; `None` when the
    /// shape is too large for an array (`shape_allowed`).
    pub fn new(rows: usize, cols: usize) -> (r: Option<Grid<i32>>)
        ensures
            r is None <==> !shape_allowed(rows, cols),
            r matches Some(g) ==> int_shape(g) == (rows, cols) && int_cells(g) == filled(rows as nat, cols as nat, 0i32),
    {
        let r = if rows == 0 { 1 } else { rows };
        let c = if cols == 0 { 1 } else { cols };
        if r <= isize::MAX as usize / c {
            proof {
                lemma_shape_bound(r as int, c as int, isize::MAX as int);
            }
            Some(Grid::zeros(rows, cols))
        } else {
            proof {
                lemma_shape_bound(r as int, c as int, isize::MAX as int);
            }
            None
        }
    }

    /// The shape (rows, columns) of the grid.
    pub fn dim(&self) -> (d: (usize, usize))
        ensures
            d == int_shape(*self),
            fits(int_cells(*self), d),
    {
        self.shape()
    }

    /// The cell at `(x, y)`, or `None` outside the grid.
    pub fn get(&self, x: usize, y: usize) -> (r: Option<i32>)
        ensures
            r is Some <==> (x < self.rows() && y < self.cols()),
            r matches Some(c) ==> c == int_cells(*self)[x as int][y as int],
    {
        let (rows, cols) = self.shape();
        if x < rows && y < cols {
            Some(self.at(x, y))
        } else {
            None
        }
    }

    /// Writes `v` at `(x, y)` and returns `true`; outside the grid it
    /// returns `false` and leaves the grid as it was.
    pub fn set(&mut self, x: usize, y: usize, v: i32) -> (done: bool)
        ensures
            done <==> (x < old(self).rows() && y < old(self).cols()),
            int_shape(*final(self)) == int_shape(*old(self)),
            done ==> int_cells(*final(self)) == set_cell(int_cells(*old(self)), x as int, y as int, v),
            !done ==> int_cells(*final(self)) == int_cells(*old(self)),
    {
        let (rows, cols) = self.shape();
        if x < rows && y < cols {
            self.put(x, y, v);
            true
        } else {
            false
        }
    }
}

} // verus!
