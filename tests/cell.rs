use game_of_life::cell::{Cell, CellConfig};
use std::collections::HashSet;
use game_of_life::grid::GameOfLife;

#[test]
fn new_cell_has_no_neighbors() {
    let c = Cell::new(3, 1, 2, true);
    assert_eq!(c.id, 3);
    assert_eq!((c.x, c.y), (1, 2));
    assert!(c.alive);
    assert!(!c.next_state);
    assert!(c.neighbors.is_empty());
}

#[test]
fn from_config_uses_defaults() {
    let c = Cell::from_config(CellConfig { id: 1, x: 5, y: 3, ..Default::default() });
    assert_eq!(c.id, 1);
    assert_eq!((c.x, c.y), (5, 3));
    assert!(!c.alive);
    let d = Cell::from_config(CellConfig { id: 0, x: 1, y: 1, alive: true });
    assert!(d.alive);
}

#[test]
fn add_neighbor_keeps_a_set() {
    let mut c = Cell::new(0, 0, 0, false);
    c.add_neighbor(4);
    c.add_neighbor(2);
    c.add_neighbor(4);
    assert_eq!(c.neighbors, HashSet::from([2, 4]));
    assert_eq!(c.neighbors.len(), 2);
}

#[test]
fn alive_neighbor_count_reads_the_game() {
    let mut g = GameOfLife::new(3, 3).unwrap();
    let mut c = Cell::new(4, 1, 1, false);
    for id in [0, 1, 2, 3, 5, 6, 7, 8, 42] {
        c.add_neighbor(id);
    }
    assert_eq!(c.get_alive_neighbor_count(&g), 0);
    g = GameOfLife::from_draws(3, 3, 1, 2, &vec![0, u64::MAX, 0, u64::MAX, 0, u64::MAX, u64::MAX, u64::MAX, 0]).unwrap();
    // live: ids 0, 2, 4, 8; the cell's own id 4 is not among its neighbours
    assert_eq!(c.get_alive_neighbor_count(&g), 3);
}

#[test]
fn alive_neighbor_count_counts_each_id_once() {
    let g = GameOfLife::from_draws(1, 1, 1, 2, &vec![0]).unwrap();
    let mut c = Cell::new(1, 0, 1, false);
    c.add_neighbor(0);
    c.add_neighbor(0);
    assert_eq!(c.get_alive_neighbor_count(&g), 1);
    c.neighbors.insert(0);
    assert_eq!(c.get_alive_neighbor_count(&g), 1);
}
