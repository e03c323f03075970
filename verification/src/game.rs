//! The simulation: generation stepping under the birth/survival rules,
//! with a generation counter and a liveness flag.

use vstd::prelude::*;
use crate::grid::{
    has_live_cell, lemma_rowmajor_index_bound, neighbor_delta, wrap_spec, Cell, CellState,
    Coordinates, Grid,
};
use vstd::arithmetic::div_mod::lemma_mod_bound;

verus! {

/// 1 when the `k`-th Moore neighbor of `(x, y)` in `g` is alive, else 0.
pub open spec fn neighbor_alive(g: Grid, x: int, y: int, k: int) -> int {
    if g.neighbor_state(x, y, k) == CellState::Alive {
        1
    } else {
        0
    }
}

/// The number of alive cells among the 8 toroidal Moore neighbors of
/// `(x, y)` in `g`.
pub open spec fn alive_neighbor_count(g: Grid, x: int, y: int) -> int {
    neighbor_alive(g, x, y, 0) + neighbor_alive(g, x, y, 1) + neighbor_alive(g, x, y, 2)
        + neighbor_alive(g, x, y, 3) + neighbor_alive(g, x, y, 4) + neighbor_alive(g, x, y, 5)
        + neighbor_alive(g, x, y, 6) + neighbor_alive(g, x, y, 7)
}

/// The state the cell at `(x, y)` takes in the next generation: an alive
/// cell survives exactly on 2 or 3 alive neighbors; a dead cell is born
/// exactly on 3.
pub open spec fn next_cell(g: Grid, x: int, y: int) -> CellState {
    let n = alive_neighbor_count(g, x, y);
    if g.cell_at(x, y) == CellState::Alive {
        if n == 2 || n == 3 {
            CellState::Alive
        } else {
            CellState::Dead
        }
    } else {
        if n == 3 {
            CellState::Alive
        } else {
            CellState::Dead
        }
    }
}

/// The step relation on grids: `post` is the generation after `pre` —
/// same rectangle, every cell computed by the rule from `pre` alone.
pub open spec fn steps_to(pre: Grid, post: Grid) -> bool {
    &&& post.wf()
    &&& post.spec_width() == pre.spec_width()
    &&& post.spec_height() == pre.spec_height()
    &&& forall|x: int, y: int|
        pre.in_bounds(x, y) ==> #[trigger] post.cell_at(x, y) == next_cell(pre, x, y)
}

/// Every cell of `g` is dead.
pub open spec fn all_dead(g: Grid) -> bool {
    forall|x: int, y: int| g.in_bounds(x, y) ==> #[trigger] g.cell_at(x, y) == CellState::Dead
}

/// The simulation state: the current grid, the number of steps taken so
/// far, and whether the current grid holds any live cell.
pub struct Game {
    pub grid: Grid,
    pub generation: u32,
    pub is_alive: bool,
}

/// The step relation on games: the grid steps, the generation counter
/// advances by one, and the liveness flag describes the new grid.
pub open spec fn step_rel(pre: Game, post: Game) -> bool {
    &&& steps_to(pre.grid, post.grid)
    &&& post.generation == pre.generation + 1
    &&& post.is_alive == has_live_cell(post.grid)
}

impl Game {
    /// Start a simulation on a `size` x `2 * size` grid, each cell alive
    /// with 20 percent probability, at generation 0.
    pub fn new(size: u16) -> (r: Self)
        requires
            size <= 32767,
        ensures
            r.grid.wf(),
            r.grid.spec_width() == size,
            r.grid.spec_height() == 2 * size,
            r.generation == 0,
            r.is_alive == has_live_cell(r.grid),
    {
        let grid = Grid::new_rand(size, size * 2, 20);
        let is_alive = grid.has_alive();
        Self { grid, generation: 0, is_alive }
    }

    /// Advance the simulation by one generation: replace the grid by the
    /// next one under the rules, add one to the generation counter, and
    /// recompute the liveness flag from the new grid. Every cell's new
    /// state is computed from the old grid alone, so no update is visible
    /// to another cell's computation within the same step.
    pub fn next_gen(&mut self)
        requires
            old(self).grid.wf(),
            old(self).generation < u32::MAX,
        ensures
            step_rel(*old(self), *final(self)),
    {
        let w = self.grid.width();
        let h = self.grid.height();
        let mut ncells: Vec<Cell> = Vec::new();
        let mut y: u16 = 0;
        while y < h
            invariant
                *self == *old(self),
                y <= h,
                self.grid.wf(),
                w == self.grid.spec_width(),
                h == self.grid.spec_height(),
                ncells@.len() == y * (w as int),
                forall|xx: int, yy: int|
                    0 <= xx < w as int && 0 <= yy < y as int ==> #[trigger] ncells@[yy * (
                    w as int) + xx].spec_state() == next_cell(self.grid, xx, yy),
            decreases h - y,
        {
            let mut x: u16 = 0;
            while x < w
                invariant
                    *self == *old(self),
                    x <= w,
                    y < h,
                    self.grid.wf(),
                    w == self.grid.spec_width(),
                    h == self.grid.spec_height(),
                    ncells@.len() == y * (w as int) + x,
                    forall|xx: int, yy: int|
                        0 <= xx < w as int && 0 <= yy < y as int ==> #[trigger] ncells@[yy * (
                        w as int) + xx].spec_state() == next_cell(self.grid, xx, yy),
                    forall|xx: int|
                        0 <= xx < x as int ==> #[trigger] ncells@[(y as int) * (w as int)
                            + xx].spec_state() == next_cell(self.grid, xx, y as int),
                decreases w - x,
            {
                let cell = self.grid.get(x, y);
                let n = count_alive_neighbors(&self.grid, &Coordinates::new(x, y));
                let ncell = if cell.state() == CellState::Alive {
                    mutate_alive_cell(n)
                } else {
                    mutate_dead_cell(n)
                };
                ncells.push(ncell);
                proof {
                    let wi = w as int;
                    let yi = y as int;
                    let xi = x as int;
                    assert forall|xx: int, yy: int|
                        0 <= xx < wi && 0 <= yy < yi implies #[trigger] ncells@[yy * wi
                        + xx].spec_state() == next_cell(self.grid, xx, yy) by {
                        lemma_rowmajor_index_bound(xx, yy, wi, yi);
                    }
                    assert forall|xx: int| 0 <= xx < xi + 1 implies #[trigger] ncells@[yi * wi
                        + xx].spec_state() == next_cell(self.grid, xx, yi) by {
                        if xx == xi {
                            assert(ncells@[yi * wi + xi] == ncells@[ncells@.len() - 1]);
                        }
                    }
                }
                x = x + 1;
            }
            proof {
                assert(((y as int) + 1) * (w as int) == (y as int) * (w as int) + (w as int))
                    by (nonlinear_arith);
            }
            y = y + 1;
        }
        proof {
            assert((w as int) * (h as int) == (h as int) * (w as int)) by (nonlinear_arith);
        }
        let ngrid = Grid::new_with_cells(w, h, ncells);
        proof {
            assert forall|x: int, y2: int| ngrid.in_bounds(x, y2) implies #[trigger] ngrid
                .cell_at(x, y2) == next_cell(self.grid, x, y2) by {
                lemma_rowmajor_index_bound(x, y2, w as int, h as int);
            }
        }
        let alive = ngrid.has_alive();
        self.grid = ngrid;
        self.is_alive = alive;
        self.generation = self.generation + 1;
    }
}

/// The number of alive cells among the 8 toroidal Moore neighbors of
/// `coordinates` in `grid`.
pub fn count_alive_neighbors(grid: &Grid, coordinates: &Coordinates) -> (r: u16)
    requires
        grid.wf(),
        grid.in_bounds(coordinates.x as int, coordinates.y as int),
    ensures
        r as int == alive_neighbor_count(*grid, coordinates.x as int, coordinates.y as int),
{
    let ns = grid.get_neighbors(coordinates);
    let mut count: u16 = 0;
    if ns[0].state() == CellState::Alive {
        count = count + 1;
    }
    if ns[1].state() == CellState::Alive {
        count = count + 1;
    }
    if ns[2].state() == CellState::Alive {
        count = count + 1;
    }
    if ns[3].state() == CellState::Alive {
        count = count + 1;
    }
    if ns[4].state() == CellState::Alive {
        count = count + 1;
    }
    if ns[5].state() == CellState::Alive {
        count = count + 1;
    }
    if ns[6].state() == CellState::Alive {
        count = count + 1;
    }
    if ns[7].state() == CellState::Alive {
        count = count + 1;
    }
    count
}

/// The next state of a cell that is currently alive: it survives exactly
/// when it has 2 or 3 alive neighbors.
pub fn mutate_alive_cell(alive_neighbors: u16) -> (r: Cell)
    ensures
        r.spec_state() == (if alive_neighbors == 2 || alive_neighbors == 3 {
            CellState::Alive
        } else {
            CellState::Dead
        }),
{
    let is_alive = alive_neighbors == 2 || alive_neighbors == 3;
    Cell::new(is_alive)
}

/// The next state of a cell that is currently dead: it is born exactly
/// when it has 3 alive neighbors.
pub fn mutate_dead_cell(alive_neighbors: u16) -> (r: Cell)
    ensures
        r.spec_state() == (if alive_neighbors == 3 {
            CellState::Alive
        } else {
            CellState::Dead
        }),
{
    let is_alive = alive_neighbors == 3;
    Cell::new(is_alive)
}

/// A grid is all dead exactly when it holds no live cell, so a false
/// liveness flag and an all-dead grid say the same thing.
pub proof fn lemma_all_dead_iff_no_live_cell(g: Grid)
    ensures
        all_dead(g) <==> !has_live_cell(g),
{
}

/// Two grids of the same rectangle that agree cell for cell have equal
/// alive-neighbor counts everywhere, and the rule sends each cell of the
/// two to the same next state.
proof fn lemma_next_cell_congruent(pre1: Grid, pre2: Grid, x: int, y: int)
    requires
        pre1.spec_width() == pre2.spec_width(),
        pre1.spec_height() == pre2.spec_height(),
        forall|i: int, j: int|
            pre1.in_bounds(i, j) ==> #[trigger] pre1.cell_at(i, j) == pre2.cell_at(i, j),
        pre1.in_bounds(x, y),
    ensures
        next_cell(pre1, x, y) == next_cell(pre2, x, y),
{
    let w = pre1.spec_width();
    let h = pre1.spec_height();
    assert forall|k: int| 0 <= k < 8 implies #[trigger] pre1.neighbor_state(x, y, k)
        == pre2.neighbor_state(x, y, k) by {
        lemma_mod_bound(x + neighbor_delta(k).0, w);
        lemma_mod_bound(y + neighbor_delta(k).1, h);
        assert(pre1.in_bounds(
            wrap_spec(x + neighbor_delta(k).0, w),
            wrap_spec(y + neighbor_delta(k).1, h),
        ));
    }
}

/// Rule determinism: two steps taken from cell-for-cell identical grids
/// end in cell-for-cell identical grids — the step engine holds no hidden
/// randomness.
pub proof fn lemma_step_deterministic(pre1: Grid, post1: Grid, pre2: Grid, post2: Grid)
    requires
        steps_to(pre1, post1),
        steps_to(pre2, post2),
        pre1.spec_width() == pre2.spec_width(),
        pre1.spec_height() == pre2.spec_height(),
        forall|i: int, j: int|
            pre1.in_bounds(i, j) ==> #[trigger] pre1.cell_at(i, j) == pre2.cell_at(i, j),
    ensures
        forall|i: int, j: int|
            post1.in_bounds(i, j) ==> #[trigger] post1.cell_at(i, j) == post2.cell_at(i, j),
{
    assert forall|i: int, j: int| post1.in_bounds(i, j) implies #[trigger] post1.cell_at(i, j)
        == post2.cell_at(i, j) by {
        lemma_next_cell_congruent(pre1, pre2, i, j);
    }
}

/// Extinction is terminal: stepping an all-dead grid yields an all-dead
/// grid — a dead cell needs 3 alive neighbors to be born, and there are
/// none.
pub proof fn lemma_extinction_terminal(pre: Grid, post: Grid)
    requires
        steps_to(pre, post),
        all_dead(pre),
    ensures
        all_dead(post),
{
    let w = pre.spec_width();
    let h = pre.spec_height();
    assert forall|x: int, y: int| post.in_bounds(x, y) implies #[trigger] post.cell_at(x, y)
        == CellState::Dead by {
        assert forall|k: int| 0 <= k < 8 implies #[trigger] neighbor_alive(pre, x, y, k)
            == 0 by {
            lemma_mod_bound(x + neighbor_delta(k).0, w);
            lemma_mod_bound(y + neighbor_delta(k).1, h);
            assert(pre.in_bounds(
                wrap_spec(x + neighbor_delta(k).0, w),
                wrap_spec(y + neighbor_delta(k).1, h),
            ));
        }
        assert(alive_neighbor_count(pre, x, y) == 0);
    }
}

/// Birth rule: after a step, a cell that was dead is alive exactly when it
/// had 3 alive neighbors — with 2, 4 or any other count it stays dead.
pub proof fn lemma_birth_rule(pre: Grid, post: Grid, x: int, y: int)
    requires
        steps_to(pre, post),
        pre.in_bounds(x, y),
        pre.cell_at(x, y) == CellState::Dead,
    ensures
        post.cell_at(x, y) == (if alive_neighbor_count(pre, x, y) == 3 {
            CellState::Alive
        } else {
            CellState::Dead
        }),
{
}

/// Survival rule: after a step, a cell that was alive is still alive
/// exactly when it had 2 or 3 alive neighbors — with 0, 1, 4 or more it
/// dies.
pub proof fn lemma_survival_rule(pre: Grid, post: Grid, x: int, y: int)
    requires
        steps_to(pre, post),
        pre.in_bounds(x, y),
        pre.cell_at(x, y) == CellState::Alive,
    ensures
        post.cell_at(x, y) == (if alive_neighbor_count(pre, x, y) == 2 || alive_neighbor_count(
            pre,
            x,
            y,
        ) == 3 {
            CellState::Alive
        } else {
            CellState::Dead
        }),
{
}

/// Generation counting: along any run of the simulation that starts at
/// generation 0 and steps once per state, the state after `n` steps is at
/// generation exactly `n`, whatever the liveness of the grids.
pub proof fn lemma_generation_counts(tr: Seq<Game>, n: int)
    requires
        tr.len() > 0,
        tr[0].generation == 0,
        forall|i: int| 0 <= i < tr.len() - 1 ==> #[trigger] step_rel(tr[i], tr[i + 1]),
        0 <= n < tr.len(),
    ensures
        tr[n].generation == n,
    decreases n,
{
    if n > 0 {
        lemma_generation_counts(tr, n - 1);
        assert(step_rel(tr[n - 1], tr[n - 1 + 1]));
        assert(tr[n - 1 + 1] == tr[n]);
    }
}

} // verus!
