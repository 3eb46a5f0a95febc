//! A cell as a record of its own: an identifier, a position, a state, and the identifiers
//! of the cells it treats as neighbours.

use crate::grid::GameOfLife;
use std::collections::HashSet;
use vstd::prelude::*;

verus! {

/// One cell: its identifier (a flat grid index), its position, its state and the state
/// it takes next, and the set of identifiers of the cells it treats as neighbours.
pub struct Cell {
    pub id: usize,
    pub x: i32,
    pub y: i32,
    pub alive: bool,
    pub next_state: bool,
    pub neighbors: HashSet<usize>,
}

/// The fields a cell is built from; every field defaults to zero or `false`.
#[derive(Debug, Clone, Copy, Default)]
pub struct CellConfig {
    pub id: usize,
    pub x: i32,
    pub y: i32,
    pub alive: bool,
}

/// The identifiers in `ids` that name a live cell of `cells`; identifiers past the end name
/// no cell.
pub open spec fn live_ids(ids: Set<usize>, cells: Seq<bool>) -> Set<usize> {
    ids.filter(|id: usize| id < cells.len() && cells[id as int])
}

impl Cell {
    /// A cell with the given identifier, position and state, no neighbours, and a next
    /// state of `false`.
    pub fn new(id: usize, x: i32, y: i32, alive: bool) -> (r: Cell)
        ensures
            r.id == id,
            r.x == x,
            r.y == y,
            r.alive == alive,
            !r.next_state,
            r.neighbors@ == Set::<usize>::empty(),
    {
        Cell { id, x, y, alive, next_state: false, neighbors: HashSet::new() }
    }

    /// A cell built from a configuration, as `new` builds it from the same fields.
    pub fn from_config(config: CellConfig) -> (r: Cell)
        ensures
            r.id == config.id,
            r.x == config.x,
            r.y == config.y,
            r.alive == config.alive,
            !r.next_state,
            r.neighbors@ == Set::<usize>::empty(),
    {
        Cell::new(config.id, config.x, config.y, config.alive)
    }

    /// Adds `neighbor_id` to the neighbour set.
    pub fn add_neighbor(&mut self, neighbor_id: usize)
        ensures
            final(self).id == old(self).id,
            final(self).x == old(self).x,
            final(self).y == old(self).y,
            final(self).alive == old(self).alive,
            final(self).next_state == old(self).next_state,
            final(self).neighbors@ == old(self).neighbors@.insert(neighbor_id),
    {
        broadcast use vstd::std_specs::hash::group_hash_axioms;

        self.neighbors.insert(neighbor_id);
    }

    /// The number of distinct neighbour identifiers that name a live cell of `game`.
    pub fn get_alive_neighbor_count(&self, game: &GameOfLife) -> (r: usize)
        requires
            game.wf(),
        ensures
            live_ids(self.neighbors@, game@.cells).finite(),
            r == live_ids(self.neighbors@, game@.cells).len(),
    {
        broadcast use vstd::std_specs::hash::group_hash_axioms;

        let total = self.neighbors.len();
        let ghost cells = game@.cells;
        let mut c: usize = 0;
        let ghost mut seen: Set<usize> = Set::empty();
        for id in it: self.neighbors.iter()
            invariant
                game.wf(),
                game@.cells == cells,
                it.seq().len() == total,
                it.seq().unref().no_duplicates(),
                it.seq().unref().to_set() == self.neighbors@,
                seen.finite(),
                c == seen.len(),
                c <= it.index(),
                seen == live_ids(it.seq().unref().take(it.index() as int).to_set(), cells),
                it.index() == it.seq().len() ==> seen =~= live_ids(self.neighbors@, cells),
            ensures
                seen == live_ids(self.neighbors@, cells),
        {
            let ghost k = it.index() as int;
            proof {
                let pre = it.seq().unref().take(k);
                let post = it.seq().unref().take(k + 1);
                assert(post =~= pre.push(*id));
                assert(!pre.contains(*id)) by {
                    if pre.contains(*id) {
                        let j = choose|j: int| 0 <= j < pre.len() && pre[j] == *id;
                        assert(it.seq().unref()[j] == it.seq().unref()[k]);
                    }
                }
                pre.lemma_push_to_set_commute(*id);
                assert(post.to_set() == pre.to_set().insert(*id));
            }
            if let Some(alive) = game.get_cell(*id) {
                if alive {
                    proof {
                        assert(*id < cells.len() && cells[*id as int]);
                        assert(live_ids(it.seq().unref().take(k + 1).to_set(), cells) =~= seen.insert(*id));
                    }
                    c = c + 1;
                    proof {
                        seen = seen.insert(*id);
                    }
                } else {
                    proof {
                        assert(!(*id < cells.len() && cells[*id as int]));
                        assert(live_ids(it.seq().unref().take(k + 1).to_set(), cells) =~= seen);
                    }
                }
            } else {
                proof {
                    assert(!(*id < cells.len() && cells[*id as int]));
                    assert(live_ids(it.seq().unref().take(k + 1).to_set(), cells) =~= seen);
                }
            }
            proof {
                if k + 1 == total {
                    assert(it.seq().unref().take(k + 1) =~= it.seq().unref());
                    assert(seen =~= live_ids(self.neighbors@, cells));
                }
            }
        }
        c
    }
}

} // verus!
