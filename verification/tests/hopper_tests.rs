use grid_sim::block::{Block, BlockType, ItemType};
use grid_sim::grid::Grid;
use grid_sim::hopper::{can_step, Transfer, bgc, next_cell, step, update, update_neighbour, N};

fn chest(item: ItemType) -> Block {
    Block { block_type: BlockType::Chest, item_type: item, direction_x: 0, direction_y: 0 }
}

fn hopper(item: ItemType, dx: i32, dy: i32) -> Block {
    Block { block_type: BlockType::Hopper, item_type: item, direction_x: dx, direction_y: dy }
}

fn small(cells: &[(usize, usize, Block)]) -> Grid<Block> {
    let mut g = Grid::<Block>::new(8, 8, Block::empty()).unwrap();
    for (x, y, b) in cells {
        assert!(g.set(*x, *y, *b));
    }
    g
}

#[test]
fn hopper_bgc_clamps_to_the_grid() {
    assert_eq!(N, 2000);
    assert_eq!(bgc(-5), 0);
    assert_eq!(bgc(0), 0);
    assert_eq!(bgc(1999), 1999);
    assert_eq!(bgc(2000), 1999);
    assert_eq!(bgc(123), 123);
}

#[test]
fn full_hopper_empties_into_empty_chest() {
    let g = small(&[(3, 4, hopper(ItemType::Apple, 3, 5)), (3, 5, chest(ItemType::Empty))]);
    let mut next = hopper(ItemType::Apple, 3, 5);
    update(&hopper(ItemType::Apple, 3, 5), 3, 4, &g, &mut next, &mut Vec::new());
    assert_eq!(next.item_type, ItemType::Empty);
}

#[test]
fn full_hopper_keeps_item_when_chest_is_full() {
    let g = small(&[(3, 4, hopper(ItemType::Apple, 3, 5)), (3, 5, chest(ItemType::Carrot))]);
    let mut next = hopper(ItemType::Apple, 3, 5);
    update(&hopper(ItemType::Apple, 3, 5), 3, 4, &g, &mut next, &mut Vec::new());
    assert_eq!(next.item_type, ItemType::Apple);
}

#[test]
fn empty_hopper_pulls_last_chest_in_window_order() {
    let h = hopper(ItemType::Empty, 2, 3);
    let g = small(&[(2, 2, h), (1, 1, chest(ItemType::Apple)), (3, 2, chest(ItemType::Carrot)), (2, 3, chest(ItemType::Apple))]);
    let mut next = h;
    update(&h, 2, 2, &g, &mut next, &mut Vec::new());
    assert_eq!(next.item_type, ItemType::Carrot);
}

#[test]
fn non_hopper_update_does_nothing() {
    let g = small(&[(1, 1, chest(ItemType::Apple))]);
    let mut next = chest(ItemType::Carrot);
    update(&chest(ItemType::Apple), 1, 2, &g, &mut next, &mut Vec::new());
    assert_eq!(next, chest(ItemType::Carrot));
}

#[test]
fn window_coordinates_shift_at_the_low_border() {
    // At row 0 the window starts at row 0, so the hopper takes the cell
    // (0, 1) to stand at (-1, 0): pointing at (0, 1) does not protect it.
    let h = hopper(ItemType::Empty, 0, 1);
    let g = small(&[(0, 0, h), (0, 1, chest(ItemType::Apple))]);
    let mut next = h;
    update(&h, 0, 0, &g, &mut next, &mut Vec::new());
    assert_eq!(next.item_type, ItemType::Apple);
}

#[test]
fn neighbour_rules() {
    let mut a = chest(ItemType::Apple);
    update_neighbour(&hopper(ItemType::Empty, 9, 9), 3, 4, 3, 3, &chest(ItemType::Apple), &mut a, &mut Vec::new());
    assert_eq!(a.item_type, ItemType::Empty);
    let mut b = chest(ItemType::Apple);
    update_neighbour(&hopper(ItemType::Empty, 3, 3), 3, 4, 3, 3, &chest(ItemType::Apple), &mut b, &mut Vec::new());
    assert_eq!(b.item_type, ItemType::Apple);
    let mut c = chest(ItemType::Empty);
    update_neighbour(&hopper(ItemType::Carrot, 3, 3), 3, 4, 3, 3, &chest(ItemType::Empty), &mut c, &mut Vec::new());
    assert_eq!(c.item_type, ItemType::Carrot);
    let mut d = chest(ItemType::Empty);
    update_neighbour(&hopper(ItemType::Carrot, 1, 1), 3, 4, 3, 3, &chest(ItemType::Empty), &mut d, &mut Vec::new());
    assert_eq!(d.item_type, ItemType::Empty);
    let mut e = hopper(ItemType::Empty, 0, 0);
    update_neighbour(&chest(ItemType::Apple), 3, 4, 3, 3, &hopper(ItemType::Empty, 0, 0), &mut e, &mut Vec::new());
    assert_eq!(e.item_type, ItemType::Empty);
}

#[test]
fn next_cell_of_a_chest_next_to_an_empty_hopper() {
    let g = small(&[(3, 3, chest(ItemType::Apple)), (3, 4, hopper(ItemType::Empty, 3, 5)), (3, 5, chest(ItemType::Empty))]);
    assert_eq!(next_cell(&g, 3, 3, &mut Vec::new()), chest(ItemType::Empty));
    assert_eq!(next_cell(&g, 3, 4, &mut Vec::new()), hopper(ItemType::Apple, 3, 5));
    assert_eq!(next_cell(&g, 3, 5, &mut Vec::new()), chest(ItemType::Empty));
    assert_eq!(next_cell(&g, 6, 6, &mut Vec::new()), Block::empty());
}

#[test]
fn step_on_small_grids_ignores_old_next_contents() {
    let g = small(&[(3, 3, chest(ItemType::Apple)), (3, 4, hopper(ItemType::Empty, 3, 5)), (3, 5, chest(ItemType::Empty))]);
    let mut next = Grid::<Block>::new(7, 7, hopper(ItemType::Carrot, 1, 1)).unwrap();
    step(&g, &mut next, &mut Vec::new());
    assert_eq!(next.get(3, 3), Some(chest(ItemType::Empty)));
    assert_eq!(next.get(3, 4), Some(hopper(ItemType::Apple, 3, 5)));
    assert_eq!(next.get(0, 0), Some(Block::empty()));
    assert_eq!(next.get(6, 6), Some(Block::empty()));
}

#[test]
fn hopper_two_steps_carry_the_apple_across() {
    let mut grid = Grid::<Block>::new(N, N, Block::empty()).unwrap();
    assert!(grid.set(3, 3, chest(ItemType::Apple)));
    assert!(grid.set(3, 4, hopper(ItemType::Empty, 3, 5)));
    assert!(grid.set(3, 5, chest(ItemType::Empty)));
    let mut next = Grid::<Block>::new(N, N, Block::empty()).unwrap();
    step(&grid, &mut next, &mut Vec::new());
    assert_eq!(next.get(3, 3), Some(chest(ItemType::Empty)));
    assert_eq!(next.get(3, 4), Some(hopper(ItemType::Apple, 3, 5)));
    assert_eq!(next.get(3, 5), Some(chest(ItemType::Empty)));
    step(&next, &mut grid, &mut Vec::new());
    assert_eq!(grid.get(3, 3), Some(chest(ItemType::Empty)));
    assert_eq!(grid.get(3, 4), Some(hopper(ItemType::Empty, 3, 5)));
    assert_eq!(grid.get(3, 5), Some(chest(ItemType::Apple)));
    assert_eq!(grid.get(1999, 1999), Some(Block::empty()));
}

#[test]
fn hopper_can_step_checks_directions() {
    let next = Grid::<Block>::new(7, 7, Block::empty()).unwrap();
    assert!(can_step(&small(&[(3, 4, hopper(ItemType::Empty, 7, 7))]), &next));
    assert!(!can_step(&small(&[(3, 4, hopper(ItemType::Empty, 8, 0))]), &next));
    assert!(!can_step(&small(&[(3, 4, hopper(ItemType::Empty, 0, -1))]), &next));
    assert!(!can_step(&small(&[]), &Grid::<Block>::new(8, 8, Block::empty()).unwrap()));
}

#[test]
fn hopper_steps_report_their_transfers() {
    let mut grid = Grid::<Block>::new(N, N, Block::empty()).unwrap();
    assert!(grid.set(3, 3, chest(ItemType::Apple)));
    assert!(grid.set(3, 4, hopper(ItemType::Empty, 3, 5)));
    assert!(grid.set(3, 5, chest(ItemType::Empty)));
    let mut next = Grid::<Block>::new(N, N, Block::empty()).unwrap();
    let mut log = Vec::new();
    step(&grid, &mut next, &mut log);
    assert_eq!(log, vec![
        Transfer::ChestEmptied { chest_x: 3, chest_y: 3, hopper_x: 3, hopper_y: 4 },
        Transfer::HopperFilled { chest_x: 3, chest_y: 3, hopper_x: 3, hopper_y: 4, item: ItemType::Apple },
    ]);
    let mut log2 = Vec::new();
    step(&next, &mut grid, &mut log2);
    assert_eq!(log2, vec![
        Transfer::HopperEmptied { chest_x: 3, chest_y: 5, hopper_x: 3, hopper_y: 4 },
        Transfer::ChestFilled { chest_x: 3, chest_y: 5, hopper_x: 3, hopper_y: 4, item: ItemType::Apple },
    ]);
}

#[test]
fn hopper_update_reports_every_pull() {
    let h = hopper(ItemType::Empty, 2, 3);
    let g = small(&[(2, 2, h), (1, 1, chest(ItemType::Apple)), (3, 2, chest(ItemType::Carrot))]);
    let mut next = h;
    let mut log = vec![Transfer::HopperEmptied { chest_x: 0, chest_y: 0, hopper_x: 0, hopper_y: 0 }];
    update(&h, 2, 2, &g, &mut next, &mut log);
    assert_eq!(log, vec![
        Transfer::HopperEmptied { chest_x: 0, chest_y: 0, hopper_x: 0, hopper_y: 0 },
        Transfer::HopperFilled { chest_x: 1, chest_y: 1, hopper_x: 2, hopper_y: 2, item: ItemType::Apple },
        Transfer::HopperFilled { chest_x: 3, chest_y: 2, hopper_x: 2, hopper_y: 2, item: ItemType::Carrot },
    ]);
}

#[test]
fn hopper_step_into_next_grid_without_cells() {
    let g = small(&[]);
    let mut next = Grid::<Block>::new(5, 0, Block::empty()).unwrap();
    assert!(can_step(&g, &next));
    let mut log = Vec::new();
    step(&g, &mut next, &mut log);
    assert_eq!(next.dim(), (5, 0));
    assert!(log.is_empty());
}

fn count_items(g: &Grid<Block>) -> usize {
    let (r, c) = g.dim();
    let mut k = 0;
    for x in 0..r {
        for y in 0..c {
            if g.get(x, y).unwrap().item_type != ItemType::Empty {
                k += 1;
            }
        }
    }
    k
}

#[test]
fn hopper_step_conserves_items_around_one_hopper() {
    for (hopper_item, chest_item, dx, dy) in [
        (ItemType::Empty, ItemType::Apple, 5, 5),
        (ItemType::Empty, ItemType::Apple, 5, 7),
        (ItemType::Carrot, ItemType::Empty, 5, 5),
        (ItemType::Carrot, ItemType::Apple, 5, 5),
        (ItemType::Carrot, ItemType::Empty, 4, 6),
    ] {
        let mut grid = Grid::<Block>::new(N, N, Block::empty()).unwrap();
        assert!(grid.set(4, 6, hopper(hopper_item, dx, dy)));
        assert!(grid.set(5, 5, chest(chest_item)));
        assert!(grid.set(9, 9, chest(ItemType::Carrot)));
        let mut next = Grid::<Block>::new(N, N, Block::empty()).unwrap();
        step(&grid, &mut next, &mut Vec::new());
        assert_eq!(count_items(&next), count_items(&grid));
    }
}
