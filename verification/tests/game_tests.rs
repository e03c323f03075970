use game_of_life::game::{count_alive_neighbors, mutate_alive_cell, mutate_dead_cell, Game};
use game_of_life::grid::{Cell, CellState, Coordinates, Grid};

fn grid_from_alive(width: u16, height: u16, alive: &[(u16, u16)]) -> Grid {
    let mut cells: Vec<Cell> = Vec::new();
    for y in 0..height {
        for x in 0..width {
            let is_alive = alive.iter().any(|&(ax, ay)| ax == x && ay == y);
            cells.push(Cell::new(is_alive));
        }
    }
    Grid::new_with_cells(width, height, cells)
}

fn game_from_alive(width: u16, height: u16, alive: &[(u16, u16)]) -> Game {
    let grid = grid_from_alive(width, height, alive);
    let is_alive = grid.has_alive();
    Game { grid, generation: 0, is_alive }
}

fn alive_cells(g: &Grid) -> Vec<(u16, u16)> {
    let mut out = Vec::new();
    for y in 0..g.height() {
        for x in 0..g.width() {
            if g.get(x, y).state() == CellState::Alive {
                out.push((x, y));
            }
        }
    }
    out
}

#[test]
fn game_new_starts_at_generation_zero() {
    let game = Game::new(4);
    assert_eq!(game.grid.width(), 4);
    assert_eq!(game.grid.height(), 8);
    assert_eq!(game.generation, 0);
    assert_eq!(game.is_alive, game.grid.has_alive());
}

#[test]
fn generation_counts_steps_exactly() {
    let mut game = game_from_alive(4, 4, &[]);
    assert_eq!(game.generation, 0);
    for n in 1..=5u32 {
        game.next_gen();
        assert_eq!(game.generation, n);
    }
}

#[test]
fn extinction_is_terminal() {
    let mut game = game_from_alive(5, 5, &[]);
    game.next_gen();
    assert!(alive_cells(&game.grid).is_empty());
    assert!(!game.is_alive);
    game.next_gen();
    assert!(alive_cells(&game.grid).is_empty());
    assert!(!game.is_alive);
    assert_eq!(game.generation, 2);
}

#[test]
fn mutate_alive_cell_survives_on_two_or_three() {
    for n in 0..=8u16 {
        let want = if n == 2 || n == 3 { CellState::Alive } else { CellState::Dead };
        assert_eq!(mutate_alive_cell(n).state(), want, "count {n}");
    }
}

#[test]
fn mutate_dead_cell_is_born_on_three() {
    for n in 0..=8u16 {
        let want = if n == 3 { CellState::Alive } else { CellState::Dead };
        assert_eq!(mutate_dead_cell(n).state(), want, "count {n}");
    }
}

#[test]
fn count_alive_neighbors_sees_wrapped_cells() {
    // Only (2,2) alive on a 3x3 torus: it neighbors (0,0) through the wrap.
    let g = grid_from_alive(3, 3, &[(2, 2)]);
    assert_eq!(count_alive_neighbors(&g, &Coordinates::new(0, 0)), 1);
    // The center of the torus also sees it.
    assert_eq!(count_alive_neighbors(&g, &Coordinates::new(1, 1)), 1);
    // The cell itself is not its own neighbor.
    assert_eq!(count_alive_neighbors(&g, &Coordinates::new(2, 2)), 0);
}

#[test]
fn dead_center_with_three_alive_neighbors_is_born() {
    // A 3x3 non-wrapping-relevant region on a 5x5 grid: the dead center
    // (2,2) has exactly 3 alive neighbors and 5 dead ones.
    let mut game = game_from_alive(5, 5, &[(1, 1), (2, 1), (3, 1)]);
    assert_eq!(count_alive_neighbors(&game.grid, &Coordinates::new(2, 2)), 3);
    game.next_gen();
    assert_eq!(game.grid.get(2, 2).state(), CellState::Alive);
}

#[test]
fn dead_center_with_two_alive_neighbors_stays_dead() {
    let mut game = game_from_alive(5, 5, &[(1, 1), (3, 1)]);
    assert_eq!(count_alive_neighbors(&game.grid, &Coordinates::new(2, 2)), 2);
    game.next_gen();
    assert_eq!(game.grid.get(2, 2).state(), CellState::Dead);
}

#[test]
fn dead_center_with_four_alive_neighbors_stays_dead() {
    let mut game = game_from_alive(5, 5, &[(1, 1), (2, 1), (3, 1), (1, 2)]);
    assert_eq!(count_alive_neighbors(&game.grid, &Coordinates::new(2, 2)), 4);
    game.next_gen();
    assert_eq!(game.grid.get(2, 2).state(), CellState::Dead);
}

#[test]
fn blinker_oscillates_with_period_two() {
    // Three alive cells in a row on a 5x5 grid, centered on (2,2).
    let mut game = game_from_alive(5, 5, &[(1, 2), (2, 2), (3, 2)]);
    game.next_gen();
    let mut vertical = alive_cells(&game.grid);
    vertical.sort_unstable();
    assert_eq!(vertical, vec![(2, 1), (2, 2), (2, 3)]);
    assert!(game.is_alive);
    game.next_gen();
    let mut horizontal = alive_cells(&game.grid);
    horizontal.sort_unstable();
    assert_eq!(horizontal, vec![(1, 2), (2, 2), (3, 2)]);
    assert!(game.is_alive);
}

#[test]
fn lonely_cells_die_and_crowded_cells_die() {
    // A single alive cell has 0 alive neighbors: it dies.
    let mut lonely = game_from_alive(5, 5, &[(2, 2)]);
    lonely.next_gen();
    assert_eq!(lonely.grid.get(2, 2).state(), CellState::Dead);
    assert!(!lonely.is_alive);
    // A cell with 4 alive neighbors dies of overcrowding.
    let mut crowded = game_from_alive(7, 7, &[(3, 3), (2, 2), (4, 2), (2, 4), (4, 4)]);
    assert_eq!(count_alive_neighbors(&crowded.grid, &Coordinates::new(3, 3)), 4);
    crowded.next_gen();
    assert_eq!(crowded.grid.get(3, 3).state(), CellState::Dead);
}

#[test]
fn stepping_identical_grids_gives_identical_grids() {
    let seed = [(1u16, 2u16), (2, 2), (3, 2), (3, 1), (2, 0)];
    let mut a = game_from_alive(6, 6, &seed);
    let mut b = game_from_alive(6, 6, &seed);
    a.next_gen();
    b.next_gen();
    assert_eq!(a.generation, b.generation);
    assert_eq!(a.is_alive, b.is_alive);
    for y in 0..6 {
        for x in 0..6 {
            assert_eq!(a.grid.get(x, y).state(), b.grid.get(x, y).state(), "cell ({x}, {y})");
        }
    }
}

#[test]
fn liveness_flag_tracks_the_new_grid() {
    // Two diagonal cells: each has 1 neighbor, both die in one step.
    let mut game = game_from_alive(6, 6, &[(1, 1), (2, 2)]);
    assert!(game.is_alive);
    game.next_gen();
    assert!(!game.is_alive);
    assert!(alive_cells(&game.grid).is_empty());
}
