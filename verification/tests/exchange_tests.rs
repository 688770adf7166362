use grid_sim::block::{Block, BlockType, ItemType};
use grid_sim::exchange::{can_step, Transfer, bgc, next_cell, step, update_neighbour, N};
use grid_sim::grid::Grid;

fn chest(item: ItemType) -> Block {
    Block { block_type: BlockType::Chest, item_type: item, direction_x: 0, direction_y: 0 }
}

fn hopper(item: ItemType, dx: i32, dy: i32) -> Block {
    Block { block_type: BlockType::Hopper, item_type: item, direction_x: dx, direction_y: dy }
}

#[test]
fn exchange_bgc_clamps_to_the_grid() {
    assert_eq!(N, 200);
    assert_eq!(bgc(-1), 0);
    assert_eq!(bgc(i32::MIN), 0);
    assert_eq!(bgc(0), 0);
    assert_eq!(bgc(57), 57);
    assert_eq!(bgc(199), 199);
    assert_eq!(bgc(200), 199);
    assert_eq!(bgc(i32::MAX), 199);
}

#[test]
fn empty_hopper_pointing_at_chest_empties_it() {
    let mut next = chest(ItemType::Apple);
    update_neighbour(&hopper(ItemType::Empty, 4, 5), 4, 4, 4, 5, &chest(ItemType::Apple), &mut next, &mut Vec::new());
    assert_eq!(next.item_type, ItemType::Empty);
}

#[test]
fn empty_hopper_pointing_elsewhere_leaves_chest() {
    let mut next = chest(ItemType::Apple);
    update_neighbour(&hopper(ItemType::Empty, 9, 9), 4, 4, 4, 5, &chest(ItemType::Apple), &mut next, &mut Vec::new());
    assert_eq!(next.item_type, ItemType::Apple);
}

#[test]
fn full_hopper_fills_chest_it_does_not_point_at() {
    let mut next = chest(ItemType::Empty);
    update_neighbour(&hopper(ItemType::Carrot, 9, 9), 4, 4, 4, 5, &chest(ItemType::Empty), &mut next, &mut Vec::new());
    assert_eq!(next.item_type, ItemType::Carrot);
    let mut pointed = chest(ItemType::Empty);
    update_neighbour(&hopper(ItemType::Carrot, 4, 5), 4, 4, 4, 5, &chest(ItemType::Empty), &mut pointed, &mut Vec::new());
    assert_eq!(pointed.item_type, ItemType::Empty);
}

#[test]
fn full_chest_fills_hopper() {
    let mut next = hopper(ItemType::Empty, 0, 0);
    update_neighbour(&chest(ItemType::Apple), 3, 3, 3, 4, &hopper(ItemType::Empty, 3, 5), &mut next, &mut Vec::new());
    assert_eq!(next.item_type, ItemType::Apple);
}

#[test]
fn chest_next_to_chest_does_nothing() {
    let mut next = chest(ItemType::Carrot);
    update_neighbour(&chest(ItemType::Apple), 3, 3, 3, 4, &chest(ItemType::Empty), &mut next, &mut Vec::new());
    assert_eq!(next, chest(ItemType::Carrot));
}

fn sample_grid() -> Grid<Block> {
    let mut grid = Grid::<Block>::new(N, N, Block::empty()).unwrap();
    assert!(grid.set(3, 3, chest(ItemType::Apple)));
    assert!(grid.set(3, 4, hopper(ItemType::Empty, 3, 5)));
    assert!(grid.set(3, 5, chest(ItemType::Empty)));
    grid
}

#[test]
fn next_cell_takes_type_keeps_direction() {
    let grid = sample_grid();
    let cur = Block { block_type: BlockType::Empty, item_type: ItemType::Empty, direction_x: 7, direction_y: 8 };
    let b = next_cell(&grid, 3, 4, cur, &mut Vec::new());
    assert_eq!(b, Block { block_type: BlockType::Hopper, item_type: ItemType::Apple, direction_x: 7, direction_y: 8 });
    let far = Block { block_type: BlockType::Chest, item_type: ItemType::Carrot, direction_x: 1, direction_y: 1 };
    assert_eq!(next_cell(&grid, 10, 10, far, &mut Vec::new()), Block { block_type: BlockType::Empty, ..far });
}

#[test]
fn step_moves_the_chest_item_into_the_hopper() {
    let grid = sample_grid();
    let mut next = Grid::<Block>::new(N, N, Block::empty()).unwrap();
    step(&grid, &mut next, &mut Vec::new());
    assert_eq!(next.get(3, 3), Some(chest(ItemType::Empty)));
    assert_eq!(next.get(3, 4), Some(hopper(ItemType::Apple, 0, 0)));
    assert_eq!(next.get(3, 5), Some(chest(ItemType::Empty)));
    for x in 0..N {
        for y in 0..N {
            if x == 3 && (3..=5).contains(&y) {
                continue;
            }
            assert_eq!(next.get(x, y), Some(Block::empty()));
        }
    }
}

#[test]
fn step_without_hoppers_only_copies_block_types() {
    let mut grid = Grid::<Block>::new(N, N, Block::empty()).unwrap();
    assert!(grid.set(0, 0, chest(ItemType::Apple)));
    assert!(grid.set(0, 1, chest(ItemType::Carrot)));
    let mut next = Grid::<Block>::new(N, N, Block::empty()).unwrap();
    let marked = Block { block_type: BlockType::Hopper, item_type: ItemType::Carrot, direction_x: 2, direction_y: 2 };
    assert!(next.set(0, 1, marked));
    step(&grid, &mut next, &mut Vec::new());
    assert_eq!(next.get(0, 0), Some(chest(ItemType::Empty)));
    assert_eq!(next.get(0, 1), Some(Block { block_type: BlockType::Chest, ..marked }));
}

#[test]
fn step_on_smaller_next_grid() {
    let mut grid = Grid::<Block>::new(6, 6, Block::empty()).unwrap();
    assert!(grid.set(1, 1, chest(ItemType::Apple)));
    assert!(grid.set(1, 2, hopper(ItemType::Empty, 4, 4)));
    let mut next = Grid::<Block>::new(5, 5, Block::empty()).unwrap();
    step(&grid, &mut next, &mut Vec::new());
    assert_eq!(next.get(1, 1), Some(chest(ItemType::Empty)));
    assert_eq!(next.get(1, 2), Some(hopper(ItemType::Apple, 0, 0)));
}

#[test]
fn exchange_can_step_checks_shapes() {
    let g = Grid::<Block>::new(6, 6, Block::empty()).unwrap();
    assert!(can_step(&g, &Grid::<Block>::new(5, 5, Block::empty()).unwrap()));
    assert!(!can_step(&g, &Grid::<Block>::new(6, 6, Block::empty()).unwrap()));
    assert!(can_step(&g, &Grid::<Block>::new(0, 0, Block::empty()).unwrap()));
    assert!(can_step(&g, &Grid::<Block>::new(9, 0, Block::empty()).unwrap()));
    let big = Grid::<Block>::new(N, N, Block::empty()).unwrap();
    assert!(can_step(&big, &Grid::<Block>::new(N, N, Block::empty()).unwrap()));
}

#[test]
fn exchange_step_reports_its_transfers() {
    let grid = sample_grid();
    let mut next = Grid::<Block>::new(N, N, Block::empty()).unwrap();
    let mut log = Vec::new();
    step(&grid, &mut next, &mut log);
    assert_eq!(log, vec![
        Transfer::HopperFilled { x: 3, y: 3, item: ItemType::Apple },
        Transfer::ChestEmptied { x: 3, y: 4 },
    ]);
}

#[test]
fn exchange_update_neighbour_reports_each_rule() {
    let mut log = Vec::new();
    let mut b = chest(ItemType::Apple);
    update_neighbour(&hopper(ItemType::Empty, 4, 5), 7, 8, 4, 5, &chest(ItemType::Apple), &mut b, &mut log);
    update_neighbour(&hopper(ItemType::Carrot, 9, 9), 7, 8, 4, 5, &chest(ItemType::Empty), &mut b, &mut log);
    let mut h = hopper(ItemType::Apple, 0, 0);
    update_neighbour(&chest(ItemType::Empty), 1, 2, 0, 0, &hopper(ItemType::Apple, 0, 0), &mut h, &mut log);
    update_neighbour(&chest(ItemType::Carrot), 1, 2, 5, 5, &hopper(ItemType::Empty, 0, 0), &mut h, &mut log);
    update_neighbour(&chest(ItemType::Carrot), 1, 2, 5, 5, &chest(ItemType::Empty), &mut h, &mut log);
    assert_eq!(log, vec![
        Transfer::ChestEmptied { x: 7, y: 8 },
        Transfer::ChestFilled { x: 7, y: 8, item: ItemType::Carrot },
        Transfer::HopperEmptied { x: 1, y: 2 },
        Transfer::HopperFilled { x: 1, y: 2, item: ItemType::Carrot },
    ]);
    assert_eq!(h.item_type, ItemType::Carrot);
}
