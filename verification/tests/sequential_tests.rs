use grid_sim::block::{Block, BlockType, ItemType};
use grid_sim::grid::Grid;
use grid_sim::sequential::{can_step, Transfer, bgc, step, update, N};

fn chest(item: ItemType) -> Block {
    Block { block_type: BlockType::Chest, item_type: item, direction_x: 0, direction_y: 0 }
}

fn hopper(item: ItemType, dx: i32, dy: i32) -> Block {
    Block { block_type: BlockType::Hopper, item_type: item, direction_x: dx, direction_y: dy }
}

fn grid_with(cells: &[(usize, usize, Block)]) -> Grid<Block> {
    let mut g = Grid::<Block>::new(N, N, Block::empty()).unwrap();
    for (x, y, b) in cells {
        assert!(g.set(*x, *y, *b));
    }
    g
}

#[test]
fn sequential_bgc_clamps_to_the_grid() {
    assert_eq!(N, 6);
    assert_eq!(bgc(-1), 0);
    assert_eq!(bgc(3), 3);
    assert_eq!(bgc(5), 5);
    assert_eq!(bgc(6), 5);
    assert_eq!(bgc(100), 5);
}

#[test]
fn sequential_two_steps_carry_the_apple_across() {
    let mut grid = grid_with(&[
        (3, 3, chest(ItemType::Apple)),
        (3, 4, hopper(ItemType::Empty, 3, 5)),
        (3, 5, chest(ItemType::Empty)),
    ]);
    let mut next = Grid::<Block>::new(N, N, Block::empty()).unwrap();
    step(&grid, &mut next, &mut Vec::new());
    assert_eq!(next.get(3, 3), Some(chest(ItemType::Empty)));
    assert_eq!(next.get(3, 4), Some(hopper(ItemType::Apple, 3, 5)));
    assert_eq!(next.get(3, 5), Some(chest(ItemType::Empty)));
    step(&next, &mut grid, &mut Vec::new());
    assert_eq!(grid.get(3, 3), Some(chest(ItemType::Empty)));
    assert_eq!(grid.get(3, 4), Some(hopper(ItemType::Empty, 3, 5)));
    assert_eq!(grid.get(3, 5), Some(chest(ItemType::Apple)));
}

#[test]
fn step_copies_a_grid_without_hoppers() {
    let grid = grid_with(&[(0, 0, chest(ItemType::Apple)), (5, 5, chest(ItemType::Carrot))]);
    let mut next = Grid::<Block>::new(7, 8, hopper(ItemType::Carrot, 1, 1)).unwrap();
    step(&grid, &mut next, &mut Vec::new());
    for x in 0..7 {
        for y in 0..8 {
            let expected = if x < N && y < N { grid.get(x, y).unwrap() } else { hopper(ItemType::Carrot, 1, 1) };
            assert_eq!(next.get(x, y), Some(expected));
        }
    }
}

#[test]
fn empty_hopper_pulls_every_full_chest() {
    let h = hopper(ItemType::Empty, 2, 3);
    let grid = grid_with(&[(2, 2, h), (1, 2, chest(ItemType::Apple)), (3, 2, chest(ItemType::Carrot))]);
    let mut next = Grid::<Block>::new(N, N, Block::empty()).unwrap();
    step(&grid, &mut next, &mut Vec::new());
    assert_eq!(next.get(1, 2), Some(chest(ItemType::Empty)));
    assert_eq!(next.get(3, 2), Some(chest(ItemType::Empty)));
    assert_eq!(next.get(2, 2), Some(hopper(ItemType::Carrot, 2, 3)));
}

#[test]
fn update_pushes_into_the_pointed_empty_chest() {
    let h = hopper(ItemType::Apple, 2, 3);
    let grid = grid_with(&[(2, 2, h), (2, 3, chest(ItemType::Empty))]);
    let mut next = grid_with(&[(2, 2, h), (2, 3, chest(ItemType::Empty))]);
    update(&h, 2, 2, &grid, &mut next, &mut Vec::new());
    assert_eq!(next.get(2, 3), Some(chest(ItemType::Apple)));
    assert_eq!(next.get(2, 2), Some(hopper(ItemType::Empty, 2, 3)));
}

#[test]
fn update_of_a_chest_does_nothing() {
    let grid = grid_with(&[(2, 2, chest(ItemType::Apple))]);
    let mut next = grid_with(&[(1, 1, chest(ItemType::Carrot))]);
    update(&chest(ItemType::Apple), 2, 2, &grid, &mut next, &mut Vec::new());
    assert_eq!(next.get(1, 1), Some(chest(ItemType::Carrot)));
    assert_eq!(next.get(2, 2), Some(Block::empty()));
}

#[test]
fn sequential_can_step_checks_hoppers() {
    let next = Grid::<Block>::new(N, N, Block::empty()).unwrap();
    assert!(can_step(&grid_with(&[(3, 4, hopper(ItemType::Empty, 3, 5))]), &next));
    assert!(can_step(&grid_with(&[(5, 5, hopper(ItemType::Empty, 0, 0))]), &next));
    assert!(!can_step(&grid_with(&[(0, 2, hopper(ItemType::Empty, 0, 0))]), &next));
    assert!(!can_step(&grid_with(&[(2, 0, hopper(ItemType::Empty, 0, 0))]), &next));
    assert!(can_step(&grid_with(&[(0, 0, chest(ItemType::Apple))]), &next));
    assert!(!can_step(&grid_with(&[]), &Grid::<Block>::new(5, 6, Block::empty()).unwrap()));
}

#[test]
fn sequential_steps_report_their_transfers() {
    let mut grid = grid_with(&[
        (3, 3, chest(ItemType::Apple)),
        (3, 4, hopper(ItemType::Empty, 3, 5)),
        (3, 5, chest(ItemType::Empty)),
    ]);
    let mut next = Grid::<Block>::new(N, N, Block::empty()).unwrap();
    let mut log = Vec::new();
    step(&grid, &mut next, &mut log);
    assert_eq!(log, vec![Transfer::Pulled]);
    step(&next, &mut grid, &mut log);
    assert_eq!(log, vec![Transfer::Pulled, Transfer::Inserted]);
}

#[test]
fn sequential_step_of_a_grid_without_cells() {
    let grid = Grid::<Block>::new(0, 3, Block::empty()).unwrap();
    let mut next = Grid::<Block>::new(1, 1, Block::empty()).unwrap();
    assert!(can_step(&grid, &next));
    step(&grid, &mut next, &mut Vec::new());
    assert_eq!(next.get(0, 0), Some(Block::empty()));
}

fn count_items(g: &Grid<Block>) -> usize {
    let (r, c) = g.dim();
    let mut k = 0;
    for x in 0..r {
        for y in 0..c {
            if g.get(x, y).unwrap().item_type != ItemType::Empty {
                k += 1;
            }
        }
    }
    k
}

#[test]
fn sequential_step_conserves_items_around_one_hopper() {
    for (hopper_item, chest_item, dx, dy) in [
        (ItemType::Empty, ItemType::Apple, 3, 3),
        (ItemType::Empty, ItemType::Apple, 1, 1),
        (ItemType::Carrot, ItemType::Empty, 3, 3),
        (ItemType::Carrot, ItemType::Apple, 3, 3),
    ] {
        let grid = grid_with(&[(2, 2, hopper(hopper_item, dx, dy)), (3, 3, chest(chest_item)), (0, 5, chest(ItemType::Apple))]);
        let mut next = Grid::<Block>::new(N, N, Block::empty()).unwrap();
        step(&grid, &mut next, &mut Vec::new());
        assert_eq!(count_items(&next), count_items(&grid));
    }
}

#[test]
fn sequential_step_keeps_chests_away_from_hoppers() {
    let grid = grid_with(&[(2, 2, hopper(ItemType::Empty, 1, 1)), (3, 3, chest(ItemType::Apple)), (5, 5, chest(ItemType::Carrot))]);
    let mut next = Grid::<Block>::new(N, N, Block::empty()).unwrap();
    step(&grid, &mut next, &mut Vec::new());
    assert_eq!(next.get(5, 5), Some(chest(ItemType::Carrot)));
    assert_eq!(next.get(3, 3), Some(chest(ItemType::Empty)));
}
