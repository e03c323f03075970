//! The grid: cells addressed by toroidal (wrap-around) coordinates.

use vstd::prelude::*;
use vstd::arithmetic::div_mod::{
    lemma_fundamental_div_mod, lemma_fundamental_div_mod_converse, lemma_mod_bound,
};
use vstd::string::StrSliceExecFns;

verus! {

/// The state of one cell: alive or dead.
#[derive(Debug, PartialEq, Eq, Structural, Clone, Copy)]
pub enum CellState {
    Alive,
    Dead,
}

/// One cell of the grid; it carries nothing but its state.
#[derive(Debug, PartialEq, Eq, Structural, Clone, Copy)]
pub struct Cell {
    state: CellState,
}

impl Cell {
    /// The state held by this cell, as a spec-level value.
    pub closed spec fn spec_state(self) -> CellState {
        self.state
    }

    /// Build a cell that is alive exactly when `is_alive` holds.
    pub fn new(is_alive: bool) -> (r: Self)
        ensures
            r.spec_state() == (if is_alive {
                CellState::Alive
            } else {
                CellState::Dead
            }),
    {
        Self {
            state: if is_alive {
                CellState::Alive
            } else {
                CellState::Dead
            },
        }
    }

    /// The state held by this cell.
    pub fn state(&self) -> (r: CellState)
        ensures
            r == self.spec_state(),
    {
        self.state
    }
}

/// A position on the grid: column `x` and row `y`.
#[derive(Debug, PartialEq, Eq, Structural, Hash, Clone, Copy)]
pub struct Coordinates {
    pub x: u16,
    pub y: u16,
}

impl Coordinates {
    pub fn new(x: u16, y: u16) -> (r: Self)
        ensures
            r.x == x,
            r.y == y,
    {
        Self { x, y }
    }
}

/// Toroidal wrap of an offset position onto the axis `[0, m)`:
/// the Euclidean remainder of `c` modulo `m`.
pub open spec fn wrap_spec(c: int, m: int) -> int {
    c % m
}

/// Wrap a possibly negative or oversized position onto the axis `[0, max)`,
/// so that `-1` wraps to `max - 1` and `max` wraps to `0`.
pub fn wrap_coords(coord: i32, max: u16) -> (r: u16)
    requires
        max > 0,
    ensures
        r < max,
        r as int == wrap_spec(coord as int, max as int),
{
    let m: u32 = max as u32;
    if coord >= 0 {
        let r: u32 = (coord as u32) % m;
        proof {
            // For a non-negative dividend the machine remainder is the
            // Euclidean remainder.
            assert(r as int == (coord as int) % (max as int));
        }
        r as u16
    } else {
        // coord < 0: take a = -coord > 0; then coord % m is 0 when a % m is 0,
        // and m - (a % m) otherwise.
        let a: u64 = (-(coord as i64)) as u64;
        let s: u32 = (a % (m as u64)) as u32;
        proof {
            lemma_fundamental_div_mod(a as int, m as int);
        }
        if s == 0 {
            proof {
                let q = a as int / m as int;
                assert(coord as int == (-q) * (m as int) + 0) by (nonlinear_arith)
                    requires
                        a as int == (m as int) * q,
                        coord as int == -(a as int),
                ;
                lemma_fundamental_div_mod_converse(coord as int, m as int, -q, 0);
            }
            0u16
        } else {
            let r: u32 = m - s;
            proof {
                let q = a as int / m as int;
                assert(coord as int == (-q - 1) * (m as int) + (m as int - s as int))
                    by (nonlinear_arith)
                    requires
                        a as int == (m as int) * q + s as int,
                        coord as int == -(a as int),
                ;
                lemma_fundamental_div_mod_converse(
                    coord as int,
                    m as int,
                    -q - 1,
                    m as int - s as int,
                );
            }
            r as u16
        }
    }
}

/// Relies on fastrand::u8: a uniform draw from the half-open range `0..100`,
/// so the result is always below 100.
#[verifier::external_body]
fn rand_below_100() -> (r: u8)
    ensures
        r < 100,
{
    fastrand::u8(0..100)
}

/// Draw a boolean that is true with probability `chance_of_true` percent.
/// Nothing is promised of a single draw beyond the two degenerate chances:
/// 0 never yields true, 100 always does.
fn get_rand_bool(chance_of_true: u8) -> (b: bool)
    requires
        chance_of_true <= 100,
    ensures
        chance_of_true == 0 ==> !b,
        chance_of_true == 100 ==> b,
{
    let n = rand_below_100();
    chance_of_true > n
}

/// The grid: a fixed `width` x `height` rectangle of cells, stored row-major
/// (the cell at `(x, y)` lives at index `y * width + x`), dense by invariant:
/// every in-bounds coordinate has exactly one cell.
#[derive(Debug)]
pub struct Grid {
    width: u16,
    height: u16,
    cells: Vec<Cell>,
}

/// The fixed enumeration order of the 8 Moore-neighborhood offsets:
/// `(dx, dy)` with the column offset varying slowest, `(0, 0)` skipped.
pub open spec fn neighbor_delta(k: int) -> (int, int) {
    if k == 0 {
        (-1, -1)
    } else if k == 1 {
        (-1, 0)
    } else if k == 2 {
        (-1, 1)
    } else if k == 3 {
        (0, -1)
    } else if k == 4 {
        (0, 1)
    } else if k == 5 {
        (1, -1)
    } else if k == 6 {
        (1, 0)
    } else {
        (1, 1)
    }
}

/// True when at least one in-bounds cell of `g` is alive.
pub open spec fn has_live_cell(g: Grid) -> bool {
    exists|x: int, y: int| g.in_bounds(x, y) && #[trigger] g.cell_at(x, y) == CellState::Alive
}

/// The row-major index of an in-bounds coordinate stays below the cell
/// count, which itself fits comfortably in a machine word.
pub(crate) proof fn lemma_rowmajor_index_bound(x: int, y: int, w: int, h: int)
    requires
        0 <= x < w,
        0 <= y < h,
        w <= 65535,
        h <= 65535,
    ensures
        0 <= y * w + x < h * w,
        y * w + x < w * h,
        y * w + x < 4294967296,
{
    assert(y * w + x < h * w && h * w == w * h && h * w <= 65535 * 65535) by (nonlinear_arith)
        requires
            0 <= x < w,
            0 <= y < h,
            w <= 65535,
            h <= 65535,
    ;
}

impl Grid {
    /// The grid's width, as a spec-level integer.
    pub closed spec fn spec_width(self) -> int {
        self.width as int
    }

    /// The grid's height, as a spec-level integer.
    pub closed spec fn spec_height(self) -> int {
        self.height as int
    }

    /// Density invariant: the backing storage holds exactly one cell for
    /// every coordinate of the `width` x `height` rectangle.
    pub closed spec fn wf(self) -> bool {
        self.cells@.len() == self.spec_width() * self.spec_height()
    }

    /// The state of the cell at `(x, y)`.
    pub closed spec fn cell_at(self, x: int, y: int) -> CellState {
        self.cells@[y * self.spec_width() + x].spec_state()
    }

    /// True when `(x, y)` lies inside the rectangle.
    pub open spec fn in_bounds(self, x: int, y: int) -> bool {
        0 <= x < self.spec_width() && 0 <= y < self.spec_height()
    }

    /// Build a grid with every cell dead.
    pub fn new_empty(width: u16, height: u16) -> (r: Self)
        ensures
            r.wf(),
            r.spec_width() == width,
            r.spec_height() == height,
            forall|x: int, y: int| r.in_bounds(x, y) ==> r.cell_at(x, y) == CellState::Dead,
    {
        Self::new_rand(width, height, 0)
    }

    /// Build a grid in which each cell independently comes up alive with
    /// probability `chance_of_true` percent. A chance outside [0, 100] is a
    /// caller error; with chance 0 every cell is dead, with 100 every cell
    /// is alive, and in between nothing is promised of a particular outcome.
    pub fn new_rand(width: u16, height: u16, chance_of_true: u8) -> (r: Self)
        requires
            chance_of_true <= 100,
        ensures
            r.wf(),
            r.spec_width() == width,
            r.spec_height() == height,
            chance_of_true == 0 ==> forall|x: int, y: int|
                r.in_bounds(x, y) ==> r.cell_at(x, y) == CellState::Dead,
            chance_of_true == 100 ==> forall|x: int, y: int|
                r.in_bounds(x, y) ==> r.cell_at(x, y) == CellState::Alive,
    {
        proof {
            assert((width as int) * (height as int) <= 65535 * 65535) by (nonlinear_arith)
                requires
                    width <= 65535,
                    height <= 65535,
            ;
        }
        let total: usize = (width as usize) * (height as usize);
        let mut cells: Vec<Cell> = Vec::with_capacity(total);
        let mut i: usize = 0;
        while i < total
            invariant
                chance_of_true <= 100,
                i <= total,
                cells@.len() == i,
                total == (width as int) * (height as int),
                chance_of_true == 0 ==> forall|j: int|
                    0 <= j < i ==> #[trigger] cells@[j].spec_state() == CellState::Dead,
                chance_of_true == 100 ==> forall|j: int|
                    0 <= j < i ==> #[trigger] cells@[j].spec_state() == CellState::Alive,
            decreases total - i,
        {
            let c = Cell::new(get_rand_bool(chance_of_true));
            cells.push(c);
            i = i + 1;
        }
        let ghost cs = cells@;
        let r = Self::new_with_cells(width, height, cells);
        proof {
            assert forall|x: int, y: int| r.in_bounds(x, y) implies 0 <= y * (width as int) + x
                < total by {
                lemma_rowmajor_index_bound(x, y, width as int, height as int);
            }
        }
        r
    }

    /// Build a grid from a pre-populated row-major cell store. The caller
    /// guarantees the density invariant: exactly `width * height` cells.
    pub fn new_with_cells(width: u16, height: u16, cells: Vec<Cell>) -> (r: Self)
        requires
            cells@.len() == width * height,
        ensures
            r.wf(),
            r.spec_width() == width,
            r.spec_height() == height,
            forall|x: int, y: int|
                r.in_bounds(x, y) ==> r.cell_at(x, y) == cells@[y * width + x].spec_state(),
    {
        Self { width, height, cells }
    }

    /// The grid's width.
    pub fn width(&self) -> (r: u16)
        ensures
            r == self.spec_width(),
    {
        self.width
    }

    /// The grid's height.
    pub fn height(&self) -> (r: u16)
        ensures
            r == self.spec_height(),
    {
        self.height
    }

    /// The cell at `(x, y)`. Out-of-bounds coordinates are a caller error:
    /// by the density invariant every in-bounds coordinate has a cell.
    pub fn get(&self, x: u16, y: u16) -> (r: Cell)
        requires
            self.wf(),
            self.in_bounds(x as int, y as int),
        ensures
            r.spec_state() == self.cell_at(x as int, y as int),
    {
        proof {
            lemma_rowmajor_index_bound(
                x as int,
                y as int,
                self.width as int,
                self.height as int,
            );
        }
        let i: usize = (y as usize) * (self.width as usize) + (x as usize);
        self.cells[i]
    }

    /// The state of the `k`-th Moore neighbor of `(x, y)`, reached through
    /// the toroidal wrap, in the fixed enumeration order of `neighbor_delta`.
    pub open spec fn neighbor_state(self, x: int, y: int, k: int) -> CellState {
        let d = neighbor_delta(k);
        self.cell_at(
            wrap_spec(x + d.0, self.spec_width()),
            wrap_spec(y + d.1, self.spec_height()),
        )
    }

    /// The cell one step `(dx, dy)` away from `(x, y)`, wrapping around the
    /// edges.
    fn neighbor_cell(&self, x: u16, y: u16, dx: i32, dy: i32) -> (r: Cell)
        requires
            self.wf(),
            self.in_bounds(x as int, y as int),
            -1 <= dx <= 1,
            -1 <= dy <= 1,
        ensures
            r.spec_state() == self.cell_at(
                wrap_spec(x + dx, self.spec_width()),
                wrap_spec(y + dy, self.spec_height()),
            ),
    {
        let nx = wrap_coords(x as i32 + dx, self.width);
        let ny = wrap_coords(y as i32 + dy, self.height);
        self.get(nx, ny)
    }

    /// The 8 Moore-neighborhood cells of `coordinates`, each found through
    /// the toroidal wrap, so that edge and corner cells still have exactly
    /// 8 neighbors. The order is fixed: offsets `(-1,-1)` through `(1,1)`,
    /// column-offset major, skipping `(0,0)`.
    pub fn get_neighbors(&self, coordinates: &Coordinates) -> (r: Vec<Cell>)
        requires
            self.wf(),
            self.in_bounds(coordinates.x as int, coordinates.y as int),
        ensures
            r@.len() == 8,
            forall|k: int|
                0 <= k < 8 ==> #[trigger] r@[k].spec_state() == self.neighbor_state(
                    coordinates.x as int,
                    coordinates.y as int,
                    k,
                ),
    {
        let x = coordinates.x;
        let y = coordinates.y;
        let mut neighbors: Vec<Cell> = Vec::with_capacity(8);
        neighbors.push(self.neighbor_cell(x, y, -1, -1));
        neighbors.push(self.neighbor_cell(x, y, -1, 0));
        neighbors.push(self.neighbor_cell(x, y, -1, 1));
        neighbors.push(self.neighbor_cell(x, y, 0, -1));
        neighbors.push(self.neighbor_cell(x, y, 0, 1));
        neighbors.push(self.neighbor_cell(x, y, 1, -1));
        neighbors.push(self.neighbor_cell(x, y, 1, 0));
        neighbors.push(self.neighbor_cell(x, y, 1, 1));
        neighbors
    }

    /// Every cell of the grid, listed in row-major order as coordinate and
    /// cell pairs: the entry for `(x, y)` stands at index `y * width + x`.
    pub fn entries(&self) -> (r: Vec<(Coordinates, Cell)>)
        requires
            self.wf(),
        ensures
            r@.len() == self.spec_width() * self.spec_height(),
            forall|x: int, y: int|
                self.in_bounds(x, y) ==> {
                    let e = #[trigger] r@[y * self.spec_width() + x];
                    e.0.x == x && e.0.y == y && e.1.spec_state() == self.cell_at(x, y)
                },
    {
        let w = self.width;
        let h = self.height;
        let mut r: Vec<(Coordinates, Cell)> = Vec::new();
        let mut y: u16 = 0;
        while y < h
            invariant
                y <= h,
                self.wf(),
                w == self.spec_width(),
                h == self.spec_height(),
                r@.len() == y * (w as int),
                forall|xx: int, yy: int|
                    0 <= xx < w as int && 0 <= yy < y as int ==> {
                        let e = #[trigger] r@[yy * (w as int) + xx];
                        e.0.x == xx && e.0.y == yy && e.1.spec_state() == self.cell_at(xx, yy)
                    },
            decreases h - y,
        {
            let mut x: u16 = 0;
            while x < w
                invariant
                    x <= w,
                    y < h,
                    self.wf(),
                    w == self.spec_width(),
                    h == self.spec_height(),
                    r@.len() == y * (w as int) + x,
                    forall|xx: int, yy: int|
                        0 <= xx < w as int && 0 <= yy < y as int ==> {
                            let e = #[trigger] r@[yy * (w as int) + xx];
                            e.0.x == xx && e.0.y == yy && e.1.spec_state() == self.cell_at(
                                xx,
                                yy,
                            )
                        },
                    forall|xx: int|
                        0 <= xx < x as int ==> {
                            let e = #[trigger] r@[(y as int) * (w as int) + xx];
                            e.0.x == xx && e.0.y == y as int && e.1.spec_state()
                                == self.cell_at(xx, y as int)
                        },
                decreases w - x,
            {
                r.push((Coordinates::new(x, y), self.get(x, y)));
                proof {
                    let wi = w as int;
                    let yi = y as int;
                    let xi = x as int;
                    assert forall|xx: int, yy: int|
                        0 <= xx < wi && 0 <= yy < yi implies {
                        let e = #[trigger] r@[yy * wi + xx];
                        e.0.x == xx && e.0.y == yy && e.1.spec_state() == self.cell_at(xx, yy)
                    } by {
                        lemma_rowmajor_index_bound(xx, yy, wi, yi);
                    }
                    assert forall|xx: int| 0 <= xx < xi + 1 implies {
                        let e = #[trigger] r@[yi * wi + xx];
                        e.0.x == xx && e.0.y == yi && e.1.spec_state() == self.cell_at(xx, yi)
                    } by {
                        if xx == xi {
                            assert(r@[yi * wi + xi] == r@[r@.len() - 1]);
                        }
                    }
                }
                x = x + 1;
            }
            proof {
                assert(((y as int) + 1) * (w as int) == (y as int) * (w as int) + (w as int))
                    by (nonlinear_arith);
            }
            y = y + 1;
        }
        proof {
            assert((h as int) * (w as int) == (w as int) * (h as int)) by (nonlinear_arith);
            assert forall|x: int, y2: int| self.in_bounds(x, y2) implies 0 <= y2 * (w as int)
                + x < (h as int) * (w as int) by {
                lemma_rowmajor_index_bound(x, y2, w as int, h as int);
            }
        }
        r
    }

    /// Overlay a named shape with its anchor at `(x, y)`, overwriting the
    /// cells it covers and leaving all others as they were. Shape cells
    /// that would fall outside the rectangle wrap toroidally onto it, like
    /// every other coordinate. An unknown shape name is a no-op.
    pub fn inject_shape_at(&mut self, x: u16, y: u16, shape: &str)
        requires
            old(self).wf(),
        ensures
            final(self).wf(),
            final(self).spec_width() == old(self).spec_width(),
            final(self).spec_height() == old(self).spec_height(),
            forall|i: int, j: int|
                final(self).in_bounds(i, j) ==> final(self).cell_at(i, j) == (if shape@
                    == "pulsar"@ {
                    overlaid(*old(self), pulsar_entries(x as int, y as int), i, j)
                } else if shape@ == "diehard"@ {
                    overlaid(*old(self), diehard_entries(x as int, y as int), i, j)
                } else {
                    old(self).cell_at(i, j)
                }),
    {
        let entries: Vec<(u32, u32, bool)> = if str_eq(shape, "pulsar") {
            shape_pulsar(x, y)
        } else if str_eq(shape, "diehard") {
            shape_diehard(x, y)
        } else {
            Vec::new()
        };
        let ghost spec_entries = offsets_view(entries@);
        proof {
            assert(offsets_view(Seq::<(u32, u32, bool)>::empty()) =~= Seq::<(
                int,
                int,
                bool,
            )>::empty());
        }
        let w = self.width;
        let h = self.height;
        if w == 0 || h == 0 {
            return;
        }
        let mut k: usize = 0;
        while k < entries.len()
            invariant
                k <= entries@.len(),
                w > 0,
                h > 0,
                self.wf(),
                self.spec_width() == w as int,
                self.spec_height() == h as int,
                old(self).spec_width() == w as int,
                old(self).spec_height() == h as int,
                spec_entries == offsets_view(entries@),
                forall|i: int, j: int|
                    self.in_bounds(i, j) ==> #[trigger] self.cell_at(i, j) == overlaid(
                        *old(self),
                        spec_entries.take(k as int),
                        i,
                        j,
                    ),
            decreases entries@.len() - k,
        {
            let e = entries[k];
            let wx = (e.0 % (w as u32)) as u16;
            let wy = (e.1 % (h as u32)) as u16;
            proof {
                lemma_mod_bound(e.0 as int, w as int);
                lemma_mod_bound(e.1 as int, h as int);
                assert(wx as int == wrap_spec(spec_entries[k as int].0, self.spec_width()));
                assert(wy as int == wrap_spec(spec_entries[k as int].1, self.spec_height()));
            }
            self.set_cell(wx, wy, Cell::new(e.2));
            proof {
                let ki = k as int;
                assert(spec_entries.take(ki + 1).last() == spec_entries[ki]);
                assert(spec_entries.take(ki + 1).drop_last() =~= spec_entries.take(ki));
                assert forall|i: int, j: int| self.in_bounds(i, j) implies #[trigger] self
                    .cell_at(i, j) == overlaid(
                    *old(self),
                    spec_entries.take(ki + 1),
                    i,
                    j,
                ) by {}
            }
            k = k + 1;
        }
        proof {
            assert(spec_entries.take(entries@.len() as int) =~= spec_entries);
        }
    }

    /// True when at least one cell of the grid is alive.
    pub fn has_alive(&self) -> (r: bool)
        requires
            self.wf(),
        ensures
            r == has_live_cell(*self),
    {
        let w = self.width;
        let h = self.height;
        let mut y: u16 = 0;
        while y < h
            invariant
                y <= h,
                self.wf(),
                w == self.spec_width(),
                h == self.spec_height(),
                forall|i: int, j: int|
                    0 <= i < w as int && 0 <= j < y as int ==> #[trigger] self.cell_at(i, j)
                        != CellState::Alive,
            decreases h - y,
        {
            let mut x: u16 = 0;
            while x < w
                invariant
                    x <= w,
                    y < h,
                    self.wf(),
                    w == self.spec_width(),
                    h == self.spec_height(),
                    forall|i: int, j: int|
                        0 <= i < w as int && 0 <= j < y as int ==> #[trigger] self.cell_at(
                            i,
                            j,
                        ) != CellState::Alive,
                    forall|i: int|
                        0 <= i < x as int ==> #[trigger] self.cell_at(i, y as int)
                            != CellState::Alive,
                decreases w - x,
            {
                if self.get(x, y).state() == CellState::Alive {
                    assert(self.cell_at(x as int, y as int) == CellState::Alive);
                    return true;
                }
                x = x + 1;
            }
            y = y + 1;
        }
        false
    }

    /// Overwrite the cell at `(x, y)`, leaving every other cell as it was.
    fn set_cell(&mut self, x: u16, y: u16, cell: Cell)
        requires
            old(self).wf(),
            old(self).in_bounds(x as int, y as int),
        ensures
            final(self).wf(),
            final(self).spec_width() == old(self).spec_width(),
            final(self).spec_height() == old(self).spec_height(),
            final(self).cell_at(x as int, y as int) == cell.spec_state(),
            forall|i: int, j: int|
                final(self).in_bounds(i, j) && !(i == x as int && j == y as int)
                    ==> final(self).cell_at(i, j) == old(self).cell_at(i, j),
    {
        proof {
            lemma_rowmajor_index_bound(
                x as int,
                y as int,
                self.width as int,
                self.height as int,
            );
        }
        let i: usize = (y as usize) * (self.width as usize) + (x as usize);
        self.cells[i] = cell;
        proof {
            assert forall|i2: int, j2: int|
                self.in_bounds(i2, j2) && !(i2 == x as int && j2 == y as int)
                    implies self.cell_at(i2, j2) == old(self).cell_at(i2, j2) by {
                lemma_rowmajor_index_bound(i2, j2, self.width as int, self.height as int);
                assert(j2 * (self.width as int) + i2 != (y as int) * (self.width as int) + (
                x as int)) by (nonlinear_arith)
                    requires
                        0 <= i2 < self.width as int,
                        0 <= j2 < self.height as int,
                        0 <= (x as int) < (self.width as int),
                        0 <= (y as int) < (self.height as int),
                        !(i2 == x as int && j2 == y as int),
                ;
            }
        }
    }
}

/// A shape's cell list, lifted to spec-level integers.
pub open spec fn offsets_view(s: Seq<(u32, u32, bool)>) -> Seq<(int, int, bool)> {
    s.map_values(|e: (u32, u32, bool)| (e.0 as int, e.1 as int, e.2))
}

/// The state a cell of `g` at `(x, y)` ends up in after the shape cells of
/// `entries` are written over it in order, each wrapped onto the grid: the
/// last entry landing on `(x, y)` wins; a cell no entry lands on keeps its
/// state from `g`.
pub open spec fn overlaid(g: Grid, entries: Seq<(int, int, bool)>, x: int, y: int) -> CellState
    decreases entries.len(),
{
    if entries.len() == 0 {
        g.cell_at(x, y)
    } else {
        let e = entries.last();
        if wrap_spec(e.0, g.spec_width()) == x && wrap_spec(e.1, g.spec_height()) == y {
            if e.2 {
                CellState::Alive
            } else {
                CellState::Dead
            }
        } else {
            overlaid(g, entries.drop_last(), x, y)
        }
    }
}

/// The cell list of the "pulsar" shape anchored at `(x, y)`: a 3x3 block,
/// row by row, each cell marked alive or dead.
pub open spec fn pulsar_entries(x: int, y: int) -> Seq<(int, int, bool)> {
    seq![
        (x, y, false),
        (x + 1, y, true),
        (x + 2, y, true),
        (x, y + 1, true),
        (x + 1, y + 1, true),
        (x + 2, y + 1, false),
        (x, y + 2, false),
        (x + 1, y + 2, true),
        (x + 2, y + 2, false),
    ]
}

/// The cell list of the "diehard" shape anchored at `(x, y)`: a 2x2 block,
/// row by row, each cell marked alive or dead.
pub open spec fn diehard_entries(x: int, y: int) -> Seq<(int, int, bool)> {
    seq![(x, y, true), (x + 1, y, true), (x, y + 1, false), (x + 1, y + 1, true)]
}

/// Character-for-character string comparison.
fn str_eq(a: &str, b: &str) -> (r: bool)
    ensures
        r == (a@ == b@),
{
    let alen = a.unicode_len();
    let blen = b.unicode_len();
    if alen != blen {
        return false;
    }
    let mut i: usize = 0;
    while i < alen
        invariant
            i <= alen,
            alen == a@.len(),
            alen == b@.len(),
            forall|j: int| 0 <= j < i ==> a@[j] == b@[j],
        decreases alen - i,
    {
        if a.get_char(i) != b.get_char(i) {
            return false;
        }
        i = i + 1;
    }
    proof {
        assert(a@ =~= b@);
    }
    true
}

/// The "pulsar" shape's cells, anchored at `(x, y)`.
fn shape_pulsar(x: u16, y: u16) -> (r: Vec<(u32, u32, bool)>)
    ensures
        offsets_view(r@) == pulsar_entries(x as int, y as int),
{
    let xx = x as u32;
    let yy = y as u32;
    let mut r: Vec<(u32, u32, bool)> = Vec::new();
    r.push((xx, yy, false));
    r.push((xx + 1, yy, true));
    r.push((xx + 2, yy, true));
    r.push((xx, yy + 1, true));
    r.push((xx + 1, yy + 1, true));
    r.push((xx + 2, yy + 1, false));
    r.push((xx, yy + 2, false));
    r.push((xx + 1, yy + 2, true));
    r.push((xx + 2, yy + 2, false));
    proof {
        assert(offsets_view(r@) =~= pulsar_entries(x as int, y as int));
    }
    r
}

/// The "diehard" shape's cells, anchored at `(x, y)`.
fn shape_diehard(x: u16, y: u16) -> (r: Vec<(u32, u32, bool)>)
    ensures
        offsets_view(r@) == diehard_entries(x as int, y as int),
{
    let xx = x as u32;
    let yy = y as u32;
    let mut r: Vec<(u32, u32, bool)> = Vec::new();
    r.push((xx, yy, true));
    r.push((xx + 1, yy, true));
    r.push((xx, yy + 1, false));
    r.push((xx + 1, yy + 1, true));
    proof {
        assert(offsets_view(r@) =~= diehard_entries(x as int, y as int));
    }
    r
}

/// A row-major index splits back into its unique in-bounds coordinate.
proof fn lemma_index_to_coords(i: int, w: int, h: int)
    requires
        0 <= i < w * h,
        0 <= w,
        0 <= h,
    ensures
        0 < w,
        0 <= i % w < w,
        0 <= i / w < h,
        i == (i / w) * w + (i % w),
{
    assert(w > 0 && h > 0) by (nonlinear_arith)
        requires
            0 <= i < w * h,
            0 <= w,
            0 <= h,
    ;
    lemma_fundamental_div_mod(i, w);
    lemma_mod_bound(i, w);
    assert((i / w) * w == w * (i / w)) by (nonlinear_arith);
    assert(0 <= i / w < h) by (nonlinear_arith)
        requires
            i == w * (i / w) + (i % w),
            0 <= (i % w) < w,
            0 <= i < w * h,
            0 < w,
            0 < h,
    ;
}

/// Density of a grid listing: a sequence shaped like the result of
/// `Grid::entries` has one entry per cell of the rectangle, every entry's
/// coordinate is in bounds, and no two entries share a coordinate.
pub proof fn lemma_entries_dense(g: Grid, s: Seq<(Coordinates, Cell)>)
    requires
        g.wf(),
        s.len() == g.spec_width() * g.spec_height(),
        forall|x: int, y: int|
            g.in_bounds(x, y) ==> {
                let e = #[trigger] s[y * g.spec_width() + x];
                e.0.x == x && e.0.y == y
            },
    ensures
        forall|i: int|
            0 <= i < s.len() ==> g.in_bounds(#[trigger] s[i].0.x as int, s[i].0.y as int),
        forall|i: int, j: int|
            0 <= i < s.len() && 0 <= j < s.len() && i != j ==> s[i].0 != s[j].0,
{
    let w = g.spec_width();
    let h = g.spec_height();
    assert forall|i: int| 0 <= i < s.len() implies g.in_bounds(
        #[trigger] s[i].0.x as int,
        s[i].0.y as int,
    ) by {
        lemma_index_to_coords(i, w, h);
        assert(s[(i / w) * w + (i % w)].0.x == i % w && s[(i / w) * w + (i % w)].0.y == i / w);
    }
    assert forall|i: int, j: int|
        0 <= i < s.len() && 0 <= j < s.len() && i != j implies s[i].0 != s[j].0 by {
        lemma_index_to_coords(i, w, h);
        lemma_index_to_coords(j, w, h);
        assert(s[(i / w) * w + (i % w)].0.x == i % w && s[(i / w) * w + (i % w)].0.y == i / w);
        assert(s[(j / w) * w + (j % w)].0.x == j % w && s[(j / w) * w + (j % w)].0.y == j / w);
        if s[i].0 == s[j].0 {
            assert(i % w == j % w && i / w == j / w);
            assert(i == j);
        }
    }
}

/// Wraparound correctness: every Moore-neighborhood coordinate, once sent
/// through the toroidal wrap, lies inside the rectangle — edge and corner
/// cells included.
pub proof fn lemma_neighbor_coords_in_bounds(g: Grid, x: int, y: int, k: int)
    requires
        g.in_bounds(x, y),
        0 <= k < 8,
    ensures
        g.in_bounds(
            wrap_spec(x + neighbor_delta(k).0, g.spec_width()),
            wrap_spec(y + neighbor_delta(k).1, g.spec_height()),
        ),
{
    lemma_mod_bound(x + neighbor_delta(k).0, g.spec_width());
    lemma_mod_bound(y + neighbor_delta(k).1, g.spec_height());
}

/// A coordinate already inside the axis is unchanged by the wrap.
pub proof fn lemma_wrap_identity(c: int, m: int)
    requires
        0 <= c < m,
    ensures
        wrap_spec(c, m) == c,
{
    assert(c % m == c) by (nonlinear_arith)
        requires
            0 <= c < m,
    ;
}

/// Pattern seeding at the origin: on an all-dead grid at least 3 wide and
/// 3 tall, the pulsar shape leaves exactly its declared cells at its
/// offsets and every other cell dead.
pub proof fn lemma_pulsar_seed_at_origin(g: Grid, i: int, j: int)
    requires
        g.wf(),
        g.spec_width() >= 3,
        g.spec_height() >= 3,
        forall|x: int, y: int| g.in_bounds(x, y) ==> #[trigger] g.cell_at(x, y)
            == CellState::Dead,
        g.in_bounds(i, j),
    ensures
        overlaid(g, pulsar_entries(0, 0), i, j) == (if 0 <= i < 3 && 0 <= j < 3 {
            if (i == 1 && j == 0) || (i == 2 && j == 0) || (i == 0 && j == 1) || (i == 1 && j
                == 1) || (i == 1 && j == 2) {
                CellState::Alive
            } else {
                CellState::Dead
            }
        } else {
            CellState::Dead
        }),
{
    reveal_with_fuel(overlaid, 11);
    assert forall|c: int| 0 <= c < 3 implies wrap_spec(c, g.spec_width()) == c && wrap_spec(
        c,
        g.spec_height(),
    ) == c by {
        lemma_wrap_identity(c, g.spec_width());
        lemma_wrap_identity(c, g.spec_height());
    }
}

/// Pattern seeding at the origin: on an all-dead grid at least 2 wide and
/// 2 tall, the diehard shape leaves exactly its declared cells at its
/// offsets and every other cell dead.
pub proof fn lemma_diehard_seed_at_origin(g: Grid, i: int, j: int)
    requires
        g.wf(),
        g.spec_width() >= 2,
        g.spec_height() >= 2,
        forall|x: int, y: int| g.in_bounds(x, y) ==> #[trigger] g.cell_at(x, y)
            == CellState::Dead,
        g.in_bounds(i, j),
    ensures
        overlaid(g, diehard_entries(0, 0), i, j) == (if 0 <= i < 2 && 0 <= j < 2 {
            if (i == 0 && j == 1) {
                CellState::Dead
            } else {
                CellState::Alive
            }
        } else {
            CellState::Dead
        }),
{
    reveal_with_fuel(overlaid, 6);
    assert forall|c: int| 0 <= c < 2 implies wrap_spec(c, g.spec_width()) == c && wrap_spec(
        c,
        g.spec_height(),
    ) == c by {
        lemma_wrap_identity(c, g.spec_width());
        lemma_wrap_identity(c, g.spec_height());
    }
}

} // verus!
