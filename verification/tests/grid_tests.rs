use grid_sim::block::{Block, BlockType, ItemType};
use grid_sim::grid::Grid;

#[test]
fn empty_block_is_unoccupied() {
    let b = Block::empty();
    assert_eq!(b.block_type, BlockType::Empty);
    assert_eq!(b.item_type, ItemType::Empty);
    assert_eq!((b.direction_x, b.direction_y), (0, 0));
}

#[test]
fn block_grid_new_fills_every_cell() {
    let chest = Block { block_type: BlockType::Chest, item_type: ItemType::Apple, direction_x: 1, direction_y: 2 };
    let g = Grid::<Block>::new(3, 4, chest).unwrap();
    assert_eq!(g.dim(), (3, 4));
    for x in 0..3 {
        for y in 0..4 {
            assert_eq!(g.get(x, y), Some(chest));
        }
    }
    assert_eq!(g.get(3, 0), None);
    assert_eq!(g.get(0, 4), None);
}

#[test]
fn block_grid_set_writes_one_cell() {
    let mut g = Grid::<Block>::new(2, 2, Block::empty()).unwrap();
    let hopper = Block { block_type: BlockType::Hopper, item_type: ItemType::Carrot, direction_x: 0, direction_y: 1 };
    assert!(g.set(1, 0, hopper));
    assert_eq!(g.get(1, 0), Some(hopper));
    assert_eq!(g.get(0, 0), Some(Block::empty()));
    assert_eq!(g.get(1, 1), Some(Block::empty()));
    assert!(!g.set(2, 0, hopper));
    assert!(!g.set(0, 2, hopper));
    assert_eq!(g.dim(), (2, 2));
}

#[test]
fn int_grid_new_is_zero() {
    let g = Grid::<i32>::new(2, 3).unwrap();
    assert_eq!(g.dim(), (2, 3));
    for x in 0..2 {
        for y in 0..3 {
            assert_eq!(g.get(x, y), Some(0));
        }
    }
}

#[test]
fn int_grid_set_then_get() {
    let mut g = Grid::<i32>::new(3, 3).unwrap();
    assert!(g.set(2, 1, 7));
    assert_eq!(g.get(2, 1), Some(7));
    assert_eq!(g.get(1, 2), Some(0));
    assert!(!g.set(3, 3, 1));
}

#[test]
fn shape_too_large_is_refused() {
    assert!(Grid::<i32>::new(usize::MAX, 2).is_none());
    assert!(Grid::<i32>::new(0, usize::MAX).is_none());
    assert!(Grid::<Block>::new(usize::MAX / 2, 3, Block::empty()).is_none());
}

#[test]
fn empty_shapes_are_allowed() {
    let g = Grid::<i32>::new(0, isize::MAX as usize).unwrap();
    assert_eq!(g.dim(), (0, isize::MAX as usize));
    assert_eq!(g.get(0, 0), None);
    let h = Grid::<Block>::new(5, 0, Block::empty()).unwrap();
    assert_eq!(h.dim(), (5, 0));
}
