use grid_sim::grid::Grid;
use grid_sim::life::{can_step, life_step, living_neighbours, next_state};

fn grid_from(rows: &[&[i32]]) -> Grid<i32> {
    let mut g = Grid::<i32>::new(rows.len(), rows[0].len()).unwrap();
    for (x, row) in rows.iter().enumerate() {
        for (y, v) in row.iter().enumerate() {
            assert!(g.set(x, y, *v));
        }
    }
    g
}

fn cells(g: &Grid<i32>) -> Vec<Vec<i32>> {
    let (r, c) = g.dim();
    (0..r).map(|x| (0..c).map(|y| g.get(x, y).unwrap()).collect()).collect()
}

#[test]
fn next_state_rule() {
    assert_eq!(next_state(0, 1), 0);
    assert_eq!(next_state(1, 1), 0);
    assert_eq!(next_state(2, 1), 1);
    assert_eq!(next_state(2, 0), 0);
    assert_eq!(next_state(2, 5), 5);
    assert_eq!(next_state(3, 0), 1);
    assert_eq!(next_state(3, 1), 1);
    assert_eq!(next_state(4, 1), 0);
    assert_eq!(next_state(-1, 1), 0);
}

#[test]
fn living_neighbours_counts_the_grid_corners() {
    let g = grid_from(&[
        &[1, 1, 0, 0, 0],
        &[1, 1, 1, 0, 0],
        &[1, 1, 5, 0, 0],
        &[0, 0, 0, 1, 1],
        &[0, 0, 0, 1, 1],
    ]);
    assert_eq!(living_neighbours(&g, 1, 1), 3);
    assert_eq!(living_neighbours(&g, 3, 3), 3);
    assert_eq!(living_neighbours(&g, 2, 2), 3);
    let all = grid_from(&[&[1, 1, 1], &[1, 1, 1], &[1, 1, 1]]);
    assert_eq!(living_neighbours(&all, 1, 1), 4);
}

#[test]
fn life_step_three_corners_sets_inner_cells() {
    let g = grid_from(&[
        &[1, 0, 1, 0],
        &[0, 0, 0, 0],
        &[1, 0, 0, 0],
        &[0, 0, 0, 0],
    ]);
    let mut next = grid_from(&[
        &[9, 9, 9, 9],
        &[9, 0, 0, 9],
        &[9, 0, 7, 9],
        &[9, 9, 9, 9],
    ]);
    life_step(&g, &mut next);
    assert_eq!(cells(&next), vec![
        vec![9, 9, 9, 9],
        vec![9, 1, 1, 9],
        vec![9, 1, 1, 9],
        vec![9, 9, 9, 9],
    ]);
}

#[test]
fn life_step_two_corners_keeps_inner_cells() {
    let g = grid_from(&[&[1, 0, 1], &[0, 0, 0], &[0, 0, 0]]);
    let mut next = grid_from(&[&[0, 0, 0], &[0, 6, 0], &[0, 0, 0]]);
    life_step(&g, &mut next);
    assert_eq!(next.get(1, 1), Some(6));
}

#[test]
fn life_step_no_corners_clears_inner_cells() {
    let g = grid_from(&[&[0, 1, 0], &[1, 1, 1], &[0, 1, 0]]);
    let mut next = grid_from(&[&[1, 1, 1], &[1, 1, 1], &[1, 1, 1]]);
    life_step(&g, &mut next);
    assert_eq!(cells(&next), vec![vec![1, 1, 1], vec![1, 0, 1], vec![1, 1, 1]]);
}

#[test]
fn life_step_on_two_by_two_changes_nothing() {
    let g = grid_from(&[&[1, 1], &[1, 1]]);
    let mut next = grid_from(&[&[3, 4], &[5, 6]]);
    life_step(&g, &mut next);
    assert_eq!(cells(&next), vec![vec![3, 4], vec![5, 6]]);
}

#[test]
fn life_step_is_idempotent_for_a_fixed_grid() {
    let g = grid_from(&[&[1, 0, 1, 0, 1], &[0; 5], &[1, 0, 1, 0, 0], &[0; 5]]);
    let mut next = grid_from(&[&[2, 2, 2, 2, 2], &[2, 3, 0, 1, 2], &[2, 0, 4, 1, 2], &[2, 2, 2, 2, 2]]);
    life_step(&g, &mut next);
    let once = cells(&next);
    life_step(&g, &mut next);
    assert_eq!(cells(&next), once);
}

#[test]
fn life_step_zero_grid_stays_zero() {
    let g = Grid::<i32>::new(6, 6).unwrap();
    let mut next = Grid::<i32>::new(6, 6).unwrap();
    life_step(&g, &mut next);
    assert_eq!(cells(&next), vec![vec![0; 6]; 6]);
}

#[test]
fn life_can_step_checks_shapes() {
    let g = Grid::<i32>::new(4, 4).unwrap();
    assert!(can_step(&g, &Grid::<i32>::new(4, 4).unwrap()));
    assert!(can_step(&g, &Grid::<i32>::new(2, 9).unwrap()));
    assert!(!can_step(&g, &Grid::<i32>::new(5, 4).unwrap()));
    assert!(can_step(&g, &Grid::<i32>::new(1, 4).unwrap()));
    assert!(!can_step(&g, &Grid::<i32>::new(0, 4).unwrap()));
    assert!(!can_step(&Grid::<i32>::new(0, 4).unwrap(), &Grid::<i32>::new(2, 2).unwrap()));
    assert!(!can_step(&g, &Grid::<i32>::new(4, 0).unwrap()));
}

#[test]
fn life_step_on_one_row_changes_nothing() {
    let g = grid_from(&[&[1, 1, 1, 1]]);
    let mut next = grid_from(&[&[4, 3, 2, 1]]);
    life_step(&g, &mut next);
    assert_eq!(cells(&next), vec![vec![4, 3, 2, 1]]);
}
