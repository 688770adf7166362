use vstd::prelude::*;

verus! {

/// What occupies a cell of a block grid.
#[derive(Clone, Copy, Debug, PartialEq, Eq, Structural)]
pub enum BlockType {
    Empty,
    Chest,
    Hopper,
}

/// The item a chest or hopper holds, if any.
#[derive(Clone, Copy, Debug, PartialEq, Eq, Structural)]
pub enum ItemType {
    Empty,
    Apple,
    Carrot,
}

/// One cell of a block grid. A hopper's direction is the grid coordinate
/// of the cell it points at.
#[derive(Clone, Copy, Debug, PartialEq, Eq, Structural)]
pub struct Block {
    pub block_type: BlockType,
    pub item_type: ItemType,
    pub direction_x: i32,
    pub direction_y: i32,
}

impl Block {
    /// The block of an unoccupied cell: no block, no item, direction (0, 0).
    pub fn empty() -> (b: Block)
        ensures
            b == empty_block(),
    {
        Block { block_type: BlockType::Empty, item_type: ItemType::Empty, direction_x: 0, direction_y: 0 }
    }
}

/// The block of an unoccupied cell.
pub open spec fn empty_block() -> Block {
    Block { block_type: BlockType::Empty, item_type: ItemType::Empty, direction_x: 0, direction_y: 0 }
}

/// `b` with its item replaced by `item`.
pub open spec fn with_item(b: Block, item: ItemType) -> Block {
    Block { item_type: item, ..b }
}

/// `b` with its block type replaced by `t`.
pub open spec fn with_type(b: Block, t: BlockType) -> Block {
    Block { block_type: t, ..b }
}

/// Whether `a` and `b` have the same block type and direction.
pub open spec fn same_layout(a: Block, b: Block) -> bool {
    &&& a.block_type == b.block_type
    &&& a.direction_x == b.direction_x
    &&& a.direction_y == b.direction_y
}

/// Whether `b` is a chest or a hopper, the blocks that hold items.
pub open spec fn is_container(b: Block) -> bool {
    b.block_type == BlockType::Chest || b.block_type == BlockType::Hopper
}

/// Whether no cell of `g` is a hopper.
pub open spec fn no_hoppers(g: Seq<Seq<Block>>) -> bool {
    forall|i: int, j: int| 0 <= i < g.len() && 0 <= j < g[i].len() ==>
        (#[trigger] g[i][j]).block_type != BlockType::Hopper
}

/// Whether no cell of `g` holds an item.
pub open spec fn no_items(g: Seq<Seq<Block>>) -> bool {
    forall|i: int, j: int| 0 <= i < g.len() && 0 <= j < g[i].len() ==>
        (#[trigger] g[i][j]).item_type == ItemType::Empty
}

/// Whether the cell `(i, j)` is the cell `(x, y)` or one of its 8
/// neighbours.
pub open spec fn near(i: int, j: int, x: int, y: int) -> bool {
    -1 <= i - x <= 1 && -1 <= j - y <= 1
}

/// 1 if `b` holds an item, else 0.
pub open spec fn holds_item(b: Block) -> int {
    if b.item_type != ItemType::Empty { 1 } else { 0 }
}

/// How many of the first `n` blocks of the row `r` hold an item.
pub open spec fn row_items(r: Seq<Block>, n: int) -> int
    decreases n,
{
    if n <= 0 { 0 } else { row_items(r, n - 1) + holds_item(r[n - 1]) }
}

/// How many cells of the first `rows` rows and `cols` columns of `g` hold
/// an item.
pub open spec fn item_count(g: Seq<Seq<Block>>, rows: int, cols: int) -> int
    decreases rows,
{
    if rows <= 0 { 0 } else { item_count(g, rows - 1, cols) + row_items(g[rows - 1], cols) }
}

/// Rows that agree but perhaps at column `b` differ in count by that cell.
proof fn lemma_row_items(r1: Seq<Block>, r2: Seq<Block>, n: int, b: int)
    requires
        forall|j: int| 0 <= j < n && j != b ==> r1[j] == r2[j],
    ensures
        row_items(r2, n) == row_items(r1, n) + (if 0 <= b < n { holds_item(r2[b]) - holds_item(r1[b]) } else { 0 }),
    decreases n,
{
    if n > 0 {
        lemma_row_items(r1, r2, n - 1, b);
    }
}

/// Tables that agree but perhaps at the cell `(a, b)` differ in count by
/// that cell.
pub proof fn lemma_item_count_one(g1: Seq<Seq<Block>>, g2: Seq<Seq<Block>>, rows: int, cols: int, a: int, b: int)
    requires
        forall|i: int, j: int| 0 <= i < rows && 0 <= j < cols && !(i == a && j == b) ==> g1[i][j] == g2[i][j],
    ensures
        item_count(g2, rows, cols) == item_count(g1, rows, cols)
            + (if 0 <= a < rows && 0 <= b < cols { holds_item(g2[a][b]) - holds_item(g1[a][b]) } else { 0 }),
    decreases rows,
{
    if rows > 0 {
        lemma_item_count_one(g1, g2, rows - 1, cols, a, b);
        let e = if rows - 1 == a { b } else { -1 };
        assert forall|j: int| 0 <= j < cols && j != e implies #[trigger] g1[rows - 1][j] == g2[rows - 1][j] by {}
        lemma_row_items(g1[rows - 1], g2[rows - 1], cols, e);
    }
}

/// Tables that agree but perhaps at two cells differ in count by those
/// cells.
pub proof fn lemma_item_count_two(
    g1: Seq<Seq<Block>>,
    g2: Seq<Seq<Block>>,
    rows: int,
    cols: int,
    a1: int,
    b1: int,
    a2: int,
    b2: int,
)
    requires
        0 <= a1 < rows,
        0 <= b1 < cols,
        0 <= a2 < rows,
        0 <= b2 < cols,
        !(a1 == a2 && b1 == b2),
        forall|i: int, j: int| 0 <= i < rows && 0 <= j < cols && !(i == a1 && j == b1) && !(i == a2 && j == b2)
            ==> g1[i][j] == g2[i][j],
    ensures
        item_count(g2, rows, cols) == item_count(g1, rows, cols) + holds_item(g2[a1][b1]) - holds_item(g1[a1][b1])
            + holds_item(g2[a2][b2]) - holds_item(g1[a2][b2]),
{
    let gm = Seq::new(rows as nat, |i: int| Seq::new(cols as nat, |j: int|
        if i == a1 && j == b1 { g2[i][j] } else { g1[i][j] }));
    lemma_item_count_one(g1, gm, rows, cols, a1, b1);
    lemma_item_count_one(gm, g2, rows, cols, a2, b2);
}

} // verus!
