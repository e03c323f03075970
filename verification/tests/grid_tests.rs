use game_of_life::grid::{wrap_coords, Cell, CellState, Coordinates, Grid};

fn empty_grid(width: u16, height: u16) -> Grid {
    Grid::new_empty(width, height)
}

fn grid_from_alive(width: u16, height: u16, alive: &[(u16, u16)]) -> Grid {
    let mut cells: Vec<Cell> = Vec::new();
    for y in 0..height {
        for x in 0..width {
            let is_alive = alive.iter().any(|&(ax, ay)| ax == x && ay == y);
            cells.push(Cell::new(is_alive));
        }
    }
    Grid::new_with_cells(width, height, cells)
}

#[test]
fn new_empty_is_all_dead() {
    let g = empty_grid(4, 3);
    assert_eq!(g.width(), 4);
    assert_eq!(g.height(), 3);
    for y in 0..3 {
        for x in 0..4 {
            assert_eq!(g.get(x, y).state(), CellState::Dead);
        }
    }
}

#[test]
fn new_rand_zero_chance_is_all_dead() {
    let g = Grid::new_rand(5, 7, 0);
    for y in 0..7 {
        for x in 0..5 {
            assert_eq!(g.get(x, y).state(), CellState::Dead);
        }
    }
}

#[test]
fn new_rand_full_chance_is_all_alive() {
    let g = Grid::new_rand(5, 7, 100);
    for y in 0..7 {
        for x in 0..5 {
            assert_eq!(g.get(x, y).state(), CellState::Alive);
        }
    }
}

#[test]
fn new_with_cells_looks_up_row_major() {
    let g = grid_from_alive(3, 2, &[(0, 0), (2, 1)]);
    assert_eq!(g.get(0, 0).state(), CellState::Alive);
    assert_eq!(g.get(1, 0).state(), CellState::Dead);
    assert_eq!(g.get(2, 0).state(), CellState::Dead);
    assert_eq!(g.get(0, 1).state(), CellState::Dead);
    assert_eq!(g.get(1, 1).state(), CellState::Dead);
    assert_eq!(g.get(2, 1).state(), CellState::Alive);
}

#[test]
fn cell_new_and_state() {
    assert_eq!(Cell::new(true).state(), CellState::Alive);
    assert_eq!(Cell::new(false).state(), CellState::Dead);
}

#[test]
fn coordinates_equality_is_structural() {
    let a = Coordinates::new(3, 4);
    let b = Coordinates::new(3, 4);
    let c = Coordinates::new(4, 3);
    assert_eq!(a, b);
    assert_ne!(a, c);
    assert_eq!(a.x, 3);
    assert_eq!(a.y, 4);
}

#[test]
fn wrap_coords_wraps_both_ways() {
    assert_eq!(wrap_coords(0, 5), 0);
    assert_eq!(wrap_coords(4, 5), 4);
    assert_eq!(wrap_coords(5, 5), 0);
    assert_eq!(wrap_coords(7, 5), 2);
    assert_eq!(wrap_coords(-1, 5), 4);
    assert_eq!(wrap_coords(-5, 5), 0);
    assert_eq!(wrap_coords(-6, 5), 4);
    assert_eq!(wrap_coords(-1, 1), 0);
    assert_eq!(wrap_coords(12345, 1), 0);
}

#[test]
fn entries_cover_every_cell_exactly_once() {
    let g = grid_from_alive(3, 2, &[(1, 0)]);
    let entries = g.entries();
    assert_eq!(entries.len(), 6);
    let mut seen = vec![false; 6];
    for (c, cell) in entries.iter() {
        assert!(c.x < 3 && c.y < 2);
        let idx = (c.y as usize) * 3 + (c.x as usize);
        assert!(!seen[idx], "coordinate listed twice");
        seen[idx] = true;
        assert_eq!(cell.state(), g.get(c.x, c.y).state());
    }
    assert!(seen.iter().all(|&s| s));
}

#[test]
fn corner_neighbors_wrap_to_opposite_corner() {
    // On a 3x3 torus the neighbors of (0,0) are, in enumeration order:
    // (2,2) (2,0) (2,1) (0,2) (0,1) (1,2) (1,0) (1,1).
    let g = grid_from_alive(3, 3, &[(2, 2)]);
    let ns = g.get_neighbors(&Coordinates::new(0, 0));
    assert_eq!(ns.len(), 8);
    assert_eq!(ns[0].state(), CellState::Alive);
    for k in 1..8 {
        assert_eq!(ns[k].state(), CellState::Dead);
    }
}

#[test]
fn edge_neighbors_wrap_across_each_axis() {
    // Neighbors of (0,1) on a 3x3 torus: the column to its left is column 2.
    let g = grid_from_alive(3, 3, &[(2, 0), (2, 1), (2, 2)]);
    let ns = g.get_neighbors(&Coordinates::new(0, 1));
    // Enumeration order of deltas: (-1,-1) (-1,0) (-1,1) (0,-1) (0,1) (1,-1) (1,0) (1,1).
    assert_eq!(ns.len(), 8);
    assert_eq!(ns[0].state(), CellState::Alive);
    assert_eq!(ns[1].state(), CellState::Alive);
    assert_eq!(ns[2].state(), CellState::Alive);
    for k in 3..8 {
        assert_eq!(ns[k].state(), CellState::Dead);
    }
}

#[test]
fn interior_neighbors_follow_enumeration_order() {
    let g = grid_from_alive(3, 3, &[(0, 1)]);
    let ns = g.get_neighbors(&Coordinates::new(1, 1));
    // (0,1) sits one column to the left of (1,1): delta (-1,0), index 1.
    assert_eq!(ns[1].state(), CellState::Alive);
    for k in [0usize, 2, 3, 4, 5, 6, 7] {
        assert_eq!(ns[k].state(), CellState::Dead);
    }
}

#[test]
fn inject_pulsar_at_origin_writes_its_block() {
    let mut g = empty_grid(6, 6);
    g.inject_shape_at(0, 0, "pulsar");
    let expected_alive = [(1u16, 0u16), (2, 0), (0, 1), (1, 1), (1, 2)];
    for y in 0..6 {
        for x in 0..6 {
            let want = expected_alive.iter().any(|&(ax, ay)| ax == x && ay == y);
            let got = g.get(x, y).state() == CellState::Alive;
            assert_eq!(got, want, "cell ({x}, {y})");
        }
    }
}

#[test]
fn inject_diehard_at_origin_writes_its_block() {
    let mut g = empty_grid(5, 5);
    g.inject_shape_at(0, 0, "diehard");
    let expected_alive = [(0u16, 0u16), (1, 0), (1, 1)];
    for y in 0..5 {
        for x in 0..5 {
            let want = expected_alive.iter().any(|&(ax, ay)| ax == x && ay == y);
            let got = g.get(x, y).state() == CellState::Alive;
            assert_eq!(got, want, "cell ({x}, {y})");
        }
    }
}

#[test]
fn inject_unknown_shape_is_a_no_op() {
    let mut g = grid_from_alive(4, 4, &[(1, 1), (2, 3)]);
    g.inject_shape_at(0, 0, "glider");
    for y in 0..4 {
        for x in 0..4 {
            let want = (x, y) == (1, 1) || (x, y) == (2, 3);
            assert_eq!(g.get(x, y).state() == CellState::Alive, want);
        }
    }
}

#[test]
fn inject_near_the_edge_wraps_toroidally() {
    let mut g = empty_grid(6, 6);
    g.inject_shape_at(5, 5, "diehard");
    // Diehard anchored at (5,5): alive at (5,5), (6,5)->(0,5), (6,6)->(0,0);
    // dead at (5,6)->(5,0).
    assert_eq!(g.get(5, 5).state(), CellState::Alive);
    assert_eq!(g.get(0, 5).state(), CellState::Alive);
    assert_eq!(g.get(0, 0).state(), CellState::Alive);
    assert_eq!(g.get(5, 0).state(), CellState::Dead);
    for y in 0..6u16 {
        for x in 0..6u16 {
            if !matches!((x, y), (5, 5) | (0, 5) | (0, 0)) {
                assert_eq!(g.get(x, y).state(), CellState::Dead, "cell ({x}, {y})");
            }
        }
    }
}

#[test]
fn has_alive_reports_liveness() {
    assert!(!empty_grid(4, 4).has_alive());
    assert!(grid_from_alive(4, 4, &[(3, 2)]).has_alive());
}
