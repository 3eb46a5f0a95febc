use game_of_life::grid::{alive_from_draw, GameOfLife, GridError};

fn grid_with(width: usize, height: usize, live: &[(usize, usize)]) -> GameOfLife {
    let mut draws = vec![u64::MAX; width * height];
    for &(x, y) in live {
        draws[y * width + x] = 0;
    }
    // density 1/2: a draw of 0 is alive, a draw of u64::MAX is dead
    GameOfLife::from_draws(width, height, 1, 2, &draws).unwrap()
}

fn live_cells(g: &GameOfLife) -> Vec<(usize, usize)> {
    g.cell_states()
        .into_iter()
        .filter(|&(_, _, alive)| alive)
        .map(|(x, y, _)| (x, y))
        .collect()
}

#[test]
fn new_grid_is_all_dead() {
    let g = GameOfLife::new(4, 3).unwrap();
    assert_eq!(g.width(), 4);
    assert_eq!(g.height(), 3);
    assert!(live_cells(&g).is_empty());
    assert_eq!(g.cell_states().len(), 12);
}

#[test]
fn new_rejects_zero_dimensions() {
    assert!(matches!(GameOfLife::new(0, 5), Err(GridError::InvalidDimension)));
    assert!(matches!(GameOfLife::new(5, 0), Err(GridError::InvalidDimension)));
    assert!(matches!(GameOfLife::new(0, 0), Err(GridError::InvalidDimension)));
}

#[test]
fn new_rejects_overflowing_dimensions() {
    assert!(matches!(GameOfLife::new(usize::MAX, 2), Err(GridError::InvalidDimension)));
}

#[test]
fn is_alive_reports_out_of_bounds() {
    let g = grid_with(3, 2, &[(2, 1)]);
    assert_eq!(g.is_alive(2, 1), Ok(true));
    assert_eq!(g.is_alive(0, 0), Ok(false));
    assert_eq!(g.is_alive(3, 0), Err(GridError::OutOfBounds));
    assert_eq!(g.is_alive(0, 2), Err(GridError::OutOfBounds));
}

#[test]
fn get_cell_reads_flat_index() {
    let g = grid_with(3, 2, &[(2, 1)]);
    assert_eq!(g.get_cell(5), Some(true));
    assert_eq!(g.get_cell(4), Some(false));
    assert_eq!(g.get_cell(6), None);
}

#[test]
fn cell_states_are_row_major() {
    let g = grid_with(2, 2, &[(1, 0)]);
    assert_eq!(
        g.cell_states(),
        vec![(0, 0, false), (1, 0, true), (0, 1, false), (1, 1, false)]
    );
}

#[test]
fn step_keeps_dimensions() {
    let mut g = grid_with(7, 4, &[(1, 1), (2, 1), (3, 3)]);
    g.step();
    assert_eq!(g.width(), 7);
    assert_eq!(g.height(), 4);
    assert_eq!(g.cell_states().len(), 28);
}

#[test]
fn dead_grid_stays_dead() {
    let mut g = GameOfLife::new(6, 5).unwrap();
    for _ in 0..10 {
        g.step();
        assert!(live_cells(&g).is_empty());
    }
}

#[test]
fn isolated_cell_dies() {
    let mut g = grid_with(5, 5, &[(2, 2)]);
    assert_eq!(g.live_neighbor_count(2, 2), 0);
    g.step();
    assert_eq!(g.is_alive(2, 2), Ok(false));
    assert!(live_cells(&g).is_empty());
}

#[test]
fn block_is_still_life() {
    let block = [(1, 1), (2, 1), (1, 2), (2, 2)];
    let mut g = grid_with(4, 4, &block);
    let before = g.cell_states();
    g.step();
    assert_eq!(g.cell_states(), before);
    g.step();
    assert_eq!(g.cell_states(), before);
}

#[test]
fn block_in_corner_is_still_life() {
    let mut g = grid_with(6, 5, &[(0, 0), (1, 0), (0, 1), (1, 1)]);
    let before = g.cell_states();
    g.step();
    assert_eq!(g.cell_states(), before);
}

#[test]
fn blinker_oscillates_with_period_two() {
    let row = vec![(0, 1), (1, 1), (2, 1)];
    let column = vec![(1, 0), (1, 1), (1, 2)];
    let mut g = grid_with(5, 5, &row);
    g.step();
    let mut after_one = live_cells(&g);
    after_one.sort();
    assert_eq!(after_one, column);
    g.step();
    assert_eq!(live_cells(&g), vec![(0, 1), (1, 1), (2, 1)]);
}

#[test]
fn corner_counts_only_cells_on_the_grid() {
    let g = grid_with(3, 3, &[(0, 0), (0, 1), (1, 0)]);
    assert_eq!(g.live_neighbor_count(0, 0), 2);
    assert_eq!(g.live_neighbor_count(1, 1), 3);
    assert_eq!(g.live_neighbor_count(2, 2), 0);
}

#[test]
fn corner_l_shape_becomes_block() {
    let mut g = grid_with(3, 3, &[(0, 0), (0, 1), (1, 0)]);
    g.step();
    let mut live = live_cells(&g);
    live.sort();
    assert_eq!(live, vec![(0, 0), (0, 1), (1, 0), (1, 1)]);
}

#[test]
fn crowded_cell_dies_and_birth_needs_three() {
    // plus sign: the centre has four live neighbours
    let mut g = grid_with(3, 3, &[(1, 0), (0, 1), (1, 1), (2, 1), (1, 2)]);
    assert_eq!(g.live_neighbor_count(1, 1), 4);
    assert_eq!(g.live_neighbor_count(0, 0), 3);
    g.step();
    assert_eq!(g.is_alive(1, 1), Ok(false));
    assert_eq!(g.is_alive(0, 0), Ok(true));
    assert_eq!(g.is_alive(1, 0), Ok(true));
}

#[test]
fn random_density_zero_is_all_dead() {
    for &(w, h) in &[(1, 1), (10, 10), (7, 3)] {
        let g = GameOfLife::from_random_grid(w, h, 0, 1).unwrap();
        assert!(live_cells(&g).is_empty());
        assert_eq!(g.cell_states().len(), w * h);
    }
}

#[test]
fn random_density_one_is_all_alive() {
    for &(w, h) in &[(1, 1), (10, 10), (7, 3)] {
        let g = GameOfLife::from_random_grid(w, h, 5, 5).unwrap();
        assert_eq!(live_cells(&g).len(), w * h);
    }
}

#[test]
fn random_rejects_zero_dimensions() {
    assert!(matches!(GameOfLife::from_random_grid(0, 3, 1, 2), Err(GridError::InvalidDimension)));
}

#[test]
fn from_draws_follows_each_draw() {
    let draws = vec![0, u64::MAX, 1 << 63, (1 << 63) - 1];
    let g = GameOfLife::from_draws(2, 2, 1, 2, &draws).unwrap();
    assert_eq!(live_cells(&g), vec![(0, 0), (1, 1)]);
}

#[test]
fn from_draws_extreme_densities() {
    let draws = vec![0, u64::MAX, 12345, 1 << 63];
    let dead = GameOfLife::from_draws(4, 1, 0, 9, &draws).unwrap();
    assert!(live_cells(&dead).is_empty());
    let full = GameOfLife::from_draws(4, 1, 9, 9, &draws).unwrap();
    assert_eq!(live_cells(&full).len(), 4);
}

#[test]
fn alive_from_draw_compares_fractions() {
    assert!(alive_from_draw(0, 1, 4));
    assert!(!alive_from_draw(1 << 62, 1, 4));
    assert!(alive_from_draw((1 << 62) - 1, 1, 4));
    assert!(!alive_from_draw(0, 0, 4));
    assert!(alive_from_draw(u64::MAX, 4, 4));
    assert!(!alive_from_draw(u64::MAX, u64::MAX - 1, u64::MAX));
}
