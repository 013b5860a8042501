use vstd::prelude::*;

pub mod iter;

verus! {

/// The state of a single grid cell: `true` means alive, `false` means dead.
#[derive(Clone, Copy, Debug, PartialEq, Eq, Structural)]
pub struct Cell(pub bool);

impl Cell {
    /// Whether this cell is alive.
    pub fn is_alive(&self) -> (r: bool)
        ensures
            r == self.0,
    {
        self.0
    }
}

/// Mathematical model of a board: the grid dimensions together with the
/// alive/dead state of every cell, stored in row-major order
/// (`cells[y * width + x]` is the cell at column `x`, row `y`).
#[verifier::ext_equal]
pub struct BoardModel {
    pub width: nat,
    pub height: nat,
    pub cells: Seq<bool>,
}

impl BoardModel {
    /// The cell sequence covers the whole grid.
    pub open spec fn wf(self) -> bool {
        self.cells.len() == self.width * self.height
    }

    /// Number of cells in the grid.
    pub open spec fn size(self) -> nat {
        self.width * self.height
    }

    /// Whether (x, y) lies inside the grid.
    pub open spec fn in_bounds(self, x: int, y: int) -> bool {
        0 <= x < self.width && 0 <= y < self.height
    }

    /// Row-major index of the cell at (x, y).
    pub open spec fn index_of(self, x: int, y: int) -> int {
        y * self.width + x
    }

    /// Whether the cell at (x, y) is alive; positions outside the grid
    /// count as dead.
    pub open spec fn alive_at(self, x: int, y: int) -> bool {
        self.in_bounds(x, y) && self.cells[self.index_of(x, y)]
    }

    /// A board with the given dimensions and every cell dead.
    pub open spec fn empty(width: nat, height: nat) -> BoardModel {
        BoardModel { width, height, cells: Seq::new(width * height, |i: int| false) }
    }

    /// The state of the cell at (x, y): `Some` of its alive flag inside the
    /// grid, `None` outside.
    pub open spec fn get(self, x: int, y: int) -> Option<bool> {
        if self.in_bounds(x, y) {
            Some(self.alive_at(x, y))
        } else {
            None
        }
    }

    /// The board with the cell at (x, y) set to the given state; writes to
    /// positions outside the grid leave the board unchanged.
    pub open spec fn set(self, x: int, y: int, alive: bool) -> BoardModel {
        if self.in_bounds(x, y) {
            BoardModel { cells: self.cells.update(self.index_of(x, y), alive), ..self }
        } else {
            self
        }
    }

    /// How many of the eight grid-adjacent neighbors of (x, y) are alive;
    /// positions outside the grid count as dead.
    pub open spec fn neighbor_count(self, x: int, y: int) -> int {
        indicator(self.alive_at(x - 1, y - 1)) + indicator(self.alive_at(x, y - 1)) + indicator(
            self.alive_at(x + 1, y - 1),
        ) + indicator(self.alive_at(x - 1, y)) + indicator(self.alive_at(x + 1, y)) + indicator(
            self.alive_at(x - 1, y + 1),
        ) + indicator(self.alive_at(x, y + 1)) + indicator(self.alive_at(x + 1, y + 1))
    }

    /// Whether the cell at (x, y) is alive after one generation.
    pub open spec fn next_alive(self, x: int, y: int) -> bool {
        next_cell_rule(self.alive_at(x, y), self.neighbor_count(x, y))
    }

    /// The board after one generation: every cell is evaluated against this
    /// board's state, with dimensions unchanged.
    pub open spec fn step(self) -> BoardModel {
        BoardModel {
            width: self.width,
            height: self.height,
            cells: Seq::new(
                self.width * self.height,
                |i: int| self.next_alive(i % self.width as int, i / self.width as int),
            ),
        }
    }

    /// One entry of the 3x3 neighborhood window around (x, y): offsets
    /// j, k range over 0..3, with (1, 1) the center. The center is absent;
    /// positions off the left or top edge read as dead cells; positions off
    /// the right or bottom edge are absent.
    pub open spec fn neighbor_entry(self, x: int, y: int, j: int, k: int) -> Option<Cell> {
        if (x == 0 && j == 0) || (y == 0 && k == 0) {
            Some(Cell(false))
        } else if j == 1 && k == 1 {
            None
        } else if x + j - 1 >= self.width || y + k - 1 >= self.height {
            None
        } else {
            Some(Cell(self.cells[self.index_of(x + j - 1, y + k - 1)]))
        }
    }
}

/// 1 if the flag is set, else 0; used to sum alive neighbors.
pub open spec fn indicator(b: bool) -> int {
    if b {
        1
    } else {
        0
    }
}

/// The transition rule for one cell: a live cell survives with two or three
/// live neighbors, a dead cell comes alive with exactly three, and every
/// other cell is dead in the next generation.
pub open spec fn next_cell_rule(alive: bool, neighbors: int) -> bool {
    if alive {
        2 <= neighbors <= 3
    } else {
        neighbors == 3
    }
}

/// A window entry reads as a live cell exactly when the grid position it
/// stands for holds a live cell.
proof fn lemma_entry_alive(m: BoardModel, x: int, y: int, j: int, k: int)
    requires
        m.wf(),
        m.in_bounds(x, y),
        0 <= j < 3,
        0 <= k < 3,
        !(j == 1 && k == 1),
    ensures
        (m.neighbor_entry(x, y, j, k) == Some(Cell(true))) <==> m.alive_at(x + j - 1, y + k - 1),
{
    if !((x == 0 && j == 0) || (y == 0 && k == 0)) && !(x + j - 1 >= m.width || y + k - 1
        >= m.height) {
        lemma_index_in_range(m.width as int, m.height as int, x + j - 1, y + k - 1);
    }
}

/// The row-major index of an in-bounds position is a valid index.
pub proof fn lemma_index_in_range(w: int, h: int, x: int, y: int)
    requires
        0 <= x < w,
        0 <= y < h,
    ensures
        0 <= y * w + x < w * h,
{
    assert(y * w + x < w * h) by (nonlinear_arith)
        requires
            0 <= x < w,
            0 <= y < h,
    ;
    assert(y * w + x >= 0) by (nonlinear_arith)
        requires
            0 <= x,
            0 <= y,
            0 < w,
    ;
}

/// Row-major indexing is injective over in-bounds positions.
pub proof fn lemma_index_injective(w: int, x1: int, y1: int, x2: int, y2: int)
    requires
        0 <= x1 < w,
        0 <= x2 < w,
        0 <= y1,
        0 <= y2,
        y1 * w + x1 == y2 * w + x2,
    ensures
        x1 == x2 && y1 == y2,
{
    assert(x1 == x2 && y1 == y2) by (nonlinear_arith)
        requires
            0 <= x1 < w,
            0 <= x2 < w,
            0 <= y1,
            0 <= y2,
            y1 * w + x1 == y2 * w + x2,
    ;
}

/// Splitting a valid index back into coordinates: for 0 <= i < w * h the
/// pair (i % w, i / w) is in bounds and maps back to i.
pub proof fn lemma_index_to_coords(w: int, h: int, i: int)
    requires
        0 <= i,
        0 < w,
        i < w * h,
    ensures
        0 <= i % w < w,
        0 <= i / w < h,
        (i / w) * w + (i % w) == i,
{
    vstd::arithmetic::div_mod::lemma_fundamental_div_mod(i, w);
    vstd::arithmetic::div_mod::lemma_mod_division_less_than_divisor(i, w);
    vstd::arithmetic::div_mod::lemma_mod_pos_bound(i, w);
    vstd::arithmetic::div_mod::lemma_div_pos_is_pos(i, w);
    assert(i / w < h) by (nonlinear_arith)
        requires
            0 < w,
            i < w * h,
            i == w * (i / w) + i % w,
            0 <= i % w,
    ;
    assert((i / w) * w + (i % w) == i) by (nonlinear_arith)
        requires
            i == w * (i / w) + i % w,
    ;
}

/// Recovering a row-major index's coordinates: the index of (x, y)
/// decomposes as x = i % w and y = i / w.
pub proof fn lemma_coords_to_index(w: int, x: int, y: int)
    requires
        0 <= x < w,
        0 <= y,
    ensures
        (y * w + x) % w == x,
        (y * w + x) / w == y,
{
    vstd::arithmetic::div_mod::lemma_fundamental_div_mod_converse(y * w + x, w, y, x);
}

/// A rectangular grid of cells with fixed dimensions, supporting point
/// reads and writes and a one-generation transition.
#[derive(Clone, Debug)]
pub struct GameBoard {
    width: usize,
    height: usize,
    state: Vec<Cell>,
}

impl View for GameBoard {
    type V = BoardModel;

    closed spec fn view(&self) -> BoardModel {
        BoardModel {
            width: self.width as nat,
            height: self.height as nat,
            cells: self.state@.map_values(|c: Cell| c.0),
        }
    }
}

impl GameBoard {
    /// The board's invariant: the cell array covers the whole grid.
    pub open spec fn wf(&self) -> bool {
        self@.wf()
    }

    /// A fresh board of the given dimensions with every cell dead.
    pub fn new(width: usize, height: usize) -> (r: GameBoard)
        requires
            width * height <= usize::MAX,
        ensures
            r.wf(),
            r@ == BoardModel::empty(width as nat, height as nat),
    {
        let capacity = width * height;
        let mut board: Vec<Cell> = Vec::new();
        let mut i: usize = 0;
        while i < capacity
            invariant
                i <= capacity,
                board@.len() == i,
                forall|j: int| 0 <= j < i ==> !(#[trigger] board@[j]).0,
            decreases capacity - i,
        {
            board.push(Cell(false));
            i = i + 1;
        }
        let r = GameBoard { width, height, state: board };
        proof {
            assert(r@.cells =~= BoardModel::empty(width as nat, height as nat).cells);
            assert(r@ =~= BoardModel::empty(width as nat, height as nat));
        }
        r
    }

    /// The number of cells in the grid, `width * height`.
    pub fn size(&self) -> (r: usize)
        requires
            self.wf(),
        ensures
            r == self@.size(),
    {
        let n = self.state.len();
        assert(n == self@.width * self@.height);
        self.width * self.height
    }

    /// The cell at (x, y), or `None` if the position lies outside the grid.
    pub fn get(&self, x: usize, y: usize) -> (r: Option<Cell>)
        requires
            self.wf(),
        ensures
            r is Some <==> self@.in_bounds(x as int, y as int),
            r matches Some(c) ==> c.0 == self@.alive_at(x as int, y as int),
    {
        if x >= self.width || y >= self.height {
            None
        } else {
            let n = self.state.len();
            proof {
                lemma_index_in_range(
                    self@.width as int,
                    self@.height as int,
                    x as int,
                    y as int,
                );
                assert(self@.cells.len() == n);
            }
            Some(self.state[y * self.width + x])
        }
    }

    /// Set the cell at (x, y) alive. Out-of-bounds positions are silently
    /// ignored. Returns the board itself so that calls can be chained.
    pub fn enable(&mut self, x: usize, y: usize) -> (r: &mut GameBoard)
        requires
            old(self).wf(),
        ensures
            (*r).wf(),
            (*r)@ == old(self)@.set(x as int, y as int, true),
            *final(self) == *final(r),
    {
        self.set(x, y, Cell(true));
        self
    }

    /// Set the cell at (x, y) dead. Out-of-bounds positions are silently
    /// ignored. Returns the board itself so that calls can be chained.
    pub fn disable(&mut self, x: usize, y: usize) -> (r: &mut GameBoard)
        requires
            old(self).wf(),
        ensures
            (*r).wf(),
            (*r)@ == old(self)@.set(x as int, y as int, false),
            *final(self) == *final(r),
    {
        self.set(x, y, Cell(false));
        self
    }

    /// Write the given cell state at (x, y); a no-op outside the grid.
    fn set(&mut self, x: usize, y: usize, value: Cell)
        requires
            old(self).wf(),
        ensures
            final(self).wf(),
            final(self)@ == old(self)@.set(x as int, y as int, value.0),
    {
        if x < self.width && y < self.height {
            let n = self.state.len();
            proof {
                lemma_index_in_range(
                    self@.width as int,
                    self@.height as int,
                    x as int,
                    y as int,
                );
                assert(self@.cells.len() == n);
            }
            let idx = y * self.width + x;
            self.state.set(idx, value);
            proof {
                assert(self@.cells =~= old(self)@.set(x as int, y as int, value.0).cells);
                assert(self@ =~= old(self)@.set(x as int, y as int, value.0));
            }
        }
    }

    /// Advance the board by exactly one generation. Every cell is evaluated
    /// against the pre-transition state, and the whole cell array is
    /// replaced at once.
    pub fn next(&mut self)
        requires
            old(self).wf(),
        ensures
            final(self).wf(),
            final(self)@ == old(self)@.step(),
    {
        let size = self.size();
        let mut next_state: Vec<Cell> = Vec::new();
        let mut i: usize = 0;
        while i < size
            invariant
                *self == *old(self),
                old(self).wf(),
                size == self@.size(),
                i <= size,
                next_state@.len() == i,
                forall|m: int|
                    0 <= m < i ==> (#[trigger] next_state@[m]).0 == old(self)@.step().cells[m],
            decreases size - i,
        {
            proof {
                assert(self@.width > 0) by (nonlinear_arith)
                    requires
                        (i as int) < self@.width * self@.height,
                        0 <= i,
                ;
                lemma_index_to_coords(self@.width as int, self@.height as int, i as int);
            }
            let x = i % self.width;
            let y = i / self.width;
            let alive = self.get_alive_neighbors(x, y);
            let n = self.state.len();
            proof {
                assert(n == self@.cells.len());
            }
            let cell = self.state[i];
            proof {
                assert(self@.index_of(x as int, y as int) == i);
                assert(self@.alive_at(x as int, y as int) == cell.0);
                assert(old(self)@.step().cells[i as int] == self@.next_alive(x as int, y as int));
            }
            if cell.is_alive() && alive < 2 {
                next_state.push(Cell(false));
            } else if cell.is_alive() && alive > 3 {
                next_state.push(Cell(false));
            } else if !cell.is_alive() && alive == 3 {
                next_state.push(Cell(true));
            } else {
                next_state.push(cell);
            }
            i = i + 1;
        }
        self.state = next_state;
        proof {
            assert(self@.cells =~= old(self)@.step().cells);
            assert(self@ =~= old(self)@.step());
        }
    }

    /// The 3x3 neighborhood window around (x, y), or `None` if (x, y) lies
    /// outside the grid. Entry `j * 3 + k` stands for the position with
    /// column offset `j - 1` and row offset `k - 1`; the center entry is
    /// absent, positions off the left or top edge read as dead cells, and
    /// positions off the right or bottom edge are absent.
    pub fn get_neighbors(&self, x: usize, y: usize) -> (r: Option<[Option<Cell>; 9]>)
        requires
            self.wf(),
        ensures
            r is Some <==> self@.in_bounds(x as int, y as int),
            r matches Some(ns) ==> {
                &&& ns[0] == self@.neighbor_entry(x as int, y as int, 0, 0)
                &&& ns[1] == self@.neighbor_entry(x as int, y as int, 0, 1)
                &&& ns[2] == self@.neighbor_entry(x as int, y as int, 0, 2)
                &&& ns[3] == self@.neighbor_entry(x as int, y as int, 1, 0)
                &&& ns[4] == self@.neighbor_entry(x as int, y as int, 1, 1)
                &&& ns[5] == self@.neighbor_entry(x as int, y as int, 1, 2)
                &&& ns[6] == self@.neighbor_entry(x as int, y as int, 2, 0)
                &&& ns[7] == self@.neighbor_entry(x as int, y as int, 2, 1)
                &&& ns[8] == self@.neighbor_entry(x as int, y as int, 2, 2)
            },
    {
        if x >= self.width || y >= self.height {
            return None;
        }
        let ns = [
            self.neighbor_cell(x, y, 0, 0),
            self.neighbor_cell(x, y, 0, 1),
            self.neighbor_cell(x, y, 0, 2),
            self.neighbor_cell(x, y, 1, 0),
            self.neighbor_cell(x, y, 1, 1),
            self.neighbor_cell(x, y, 1, 2),
            self.neighbor_cell(x, y, 2, 0),
            self.neighbor_cell(x, y, 2, 1),
            self.neighbor_cell(x, y, 2, 2),
        ];
        Some(ns)
    }

    /// How many of the eight neighbors of (x, y) are alive; 0 when (x, y)
    /// lies outside the grid.
    pub fn get_alive_neighbors(&self, x: usize, y: usize) -> (r: usize)
        requires
            self.wf(),
        ensures
            self@.in_bounds(x as int, y as int) ==> r == self@.neighbor_count(
                x as int,
                y as int,
            ),
            !self@.in_bounds(x as int, y as int) ==> r == 0,
    {
        match self.get_neighbors(x, y) {
            None => 0,
            Some(ns) => {
                let mut count: usize = 0;
                if let Some(Cell(true)) = ns[0] {
                    count = count + 1;
                }
                if let Some(Cell(true)) = ns[1] {
                    count = count + 1;
                }
                if let Some(Cell(true)) = ns[2] {
                    count = count + 1;
                }
                if let Some(Cell(true)) = ns[3] {
                    count = count + 1;
                }
                if let Some(Cell(true)) = ns[4] {
                    count = count + 1;
                }
                if let Some(Cell(true)) = ns[5] {
                    count = count + 1;
                }
                if let Some(Cell(true)) = ns[6] {
                    count = count + 1;
                }
                if let Some(Cell(true)) = ns[7] {
                    count = count + 1;
                }
                if let Some(Cell(true)) = ns[8] {
                    count = count + 1;
                }
                proof {
                    let xi = x as int;
                    let yi = y as int;
                    lemma_entry_alive(self@, xi, yi, 0, 0);
                    lemma_entry_alive(self@, xi, yi, 0, 1);
                    lemma_entry_alive(self@, xi, yi, 0, 2);
                    lemma_entry_alive(self@, xi, yi, 1, 0);
                    lemma_entry_alive(self@, xi, yi, 1, 2);
                    lemma_entry_alive(self@, xi, yi, 2, 0);
                    lemma_entry_alive(self@, xi, yi, 2, 1);
                    lemma_entry_alive(self@, xi, yi, 2, 2);
                }
                count
            },
        }
    }

    /// The grid width.
    pub fn grid_width(&self) -> (r: usize)
        ensures
            r == self@.width,
    {
        self.width
    }

    /// The grid height.
    pub fn grid_height(&self) -> (r: usize)
        ensures
            r == self@.height,
    {
        self.height
    }

    /// The cell at a row-major index; read by the coordinate traversal.
    pub(crate) fn cell_at(&self, i: usize) -> (r: Cell)
        requires
            self.wf(),
            i < self@.cells.len(),
        ensures
            r.0 == self@.cells[i as int],
    {
        self.state[i]
    }

    /// One entry of the neighborhood window; offsets j, k range over 0..3.
    fn neighbor_cell(&self, x: usize, y: usize, j: usize, k: usize) -> (r: Option<Cell>)
        requires
            self.wf(),
            self@.in_bounds(x as int, y as int),
            j < 3,
            k < 3,
        ensures
            r == self@.neighbor_entry(x as int, y as int, j as int, k as int),
    {
        if (x == 0 && j == 0) || (y == 0 && k == 0) {
            Some(Cell(false))
        } else if j == 1 && k == 1 {
            None
        } else {
            let nx = if j == 0 {
                x - 1
            } else {
                x + (j - 1)
            };
            let ny = if k == 0 {
                y - 1
            } else {
                y + (k - 1)
            };
            self.get(nx, ny)
        }
    }
}

/// Law: reading a cell right after writing it yields exactly the value
/// written.
pub proof fn lemma_set_then_get(m: BoardModel, x: int, y: int, alive: bool)
    requires
        m.wf(),
        m.in_bounds(x, y),
    ensures
        m.set(x, y, alive).get(x, y) == Some(alive),
{
    lemma_index_in_range(m.width as int, m.height as int, x, y);
}

/// Law: a write touches no cell but the one addressed.
pub proof fn lemma_set_preserves_others(
    m: BoardModel,
    x: int,
    y: int,
    alive: bool,
    x2: int,
    y2: int,
)
    requires
        m.wf(),
        !(x2 == x && y2 == y),
    ensures
        m.set(x, y, alive).alive_at(x2, y2) == m.alive_at(x2, y2),
        m.set(x, y, alive).get(x2, y2) == m.get(x2, y2),
{
    if m.in_bounds(x, y) && m.in_bounds(x2, y2) {
        lemma_index_in_range(m.width as int, m.height as int, x, y);
        lemma_index_in_range(m.width as int, m.height as int, x2, y2);
        if m.index_of(x, y) == m.index_of(x2, y2) {
            lemma_index_injective(m.width as int, x, y, x2, y2);
        }
    }
}

/// Law: positions outside the grid read as absent, and writing to them
/// leaves the board entirely unchanged.
pub proof fn lemma_out_of_bounds(m: BoardModel, x: int, y: int, alive: bool)
    requires
        !m.in_bounds(x, y),
    ensures
        m.get(x, y) is None,
        m.set(x, y, alive) == m,
{
}

/// Law: the cell count stays `width * height` under both point writes and
/// whole-board transitions, as do the dimensions themselves.
pub proof fn lemma_size_invariant(m: BoardModel, x: int, y: int, alive: bool)
    requires
        m.wf(),
    ensures
        m.set(x, y, alive).wf(),
        m.set(x, y, alive).width == m.width,
        m.set(x, y, alive).height == m.height,
        m.set(x, y, alive).size() == m.size(),
        m.step().wf(),
        m.step().width == m.width,
        m.step().height == m.height,
        m.step().size() == m.size(),
{
    if m.in_bounds(x, y) {
        lemma_index_in_range(m.width as int, m.height as int, x, y);
    }
}

/// Law: the transition is deterministic — two boards in the same state
/// step to the same state.
pub proof fn lemma_step_deterministic(a: BoardModel, b: BoardModel)
    requires
        a.width == b.width,
        a.height == b.height,
        a.cells =~= b.cells,
    ensures
        a.step() == b.step(),
{
    assert(a =~= b);
}

/// Law: a live cell in the corner of an otherwise empty grid has no live
/// neighbors and dies in the next generation.
pub proof fn lemma_lone_corner_dies(w: nat, h: nat)
    requires
        1 <= w,
        1 <= h,
    ensures
        BoardModel::empty(w, h).set(0, 0, true).step().alive_at(0, 0) == false,
{
    let m = BoardModel::empty(w, h).set(0, 0, true);
    assert(0 < w * h) by (nonlinear_arith)
        requires
            1 <= w,
            1 <= h,
    ;
    if 1 < w {
        lemma_index_in_range(w as int, h as int, 1, 0);
    }
    if 1 < h {
        lemma_index_in_range(w as int, h as int, 0, 1);
    }
    if 1 < w && 1 < h {
        lemma_index_in_range(w as int, h as int, 1, 1);
    }
    assert(!m.alive_at(1, 0));
    assert(!m.alive_at(0, 1));
    assert(!m.alive_at(1, 1));
    assert(m.neighbor_count(0, 0) == 0);
    lemma_coords_to_index(w as int, 0, 0);
    assert(m.step().cells[0] == m.next_alive(0, 0));
}

/// Law: a 2x2 block of live cells in the corner of an otherwise empty
/// grid is a still life — every block cell has exactly three live
/// neighbors and every other cell at most two, so one generation leaves
/// the board unchanged.
pub proof fn lemma_block_still_life(w: nat, h: nat)
    requires
        4 <= w,
        4 <= h,
    ensures
        ({
            let m = BoardModel::empty(w, h).set(0, 0, true).set(1, 0, true).set(0, 1, true).set(
                1,
                1,
                true,
            );
            m.step() == m
        }),
{
    let m = BoardModel::empty(w, h).set(0, 0, true).set(1, 0, true).set(0, 1, true).set(
        1,
        1,
        true,
    );
    lemma_index_in_range(w as int, h as int, 0, 0);
    lemma_index_in_range(w as int, h as int, 1, 0);
    lemma_index_in_range(w as int, h as int, 0, 1);
    lemma_index_in_range(w as int, h as int, 1, 1);
    lemma_coords_to_index(w as int, 1, 1);
    assert(m.wf());
    assert forall|x: int, y: int| #[trigger] m.alive_at(x, y) == ((x == 0 || x == 1) && (y == 0
        || y == 1)) by {
        if m.in_bounds(x, y) {
            lemma_index_in_range(w as int, h as int, x, y);
            if y * w + x == 0 {
                lemma_index_injective(w as int, x, y, 0, 0);
            }
            if y * w + x == 1 {
                lemma_index_injective(w as int, x, y, 1, 0);
            }
            if y * w + x == w {
                lemma_index_injective(w as int, x, y, 0, 1);
            }
            if y * w + x == w + 1 {
                lemma_index_injective(w as int, x, y, 1, 1);
            }
        }
    }
    assert forall|x: int, y: int| m.in_bounds(x, y) implies #[trigger] m.next_alive(x, y)
        == m.alive_at(x, y) by {
        assert(m.alive_at(x - 1, y - 1) == ((x - 1 == 0 || x - 1 == 1) && (y - 1 == 0 || y - 1
            == 1)));
        assert(m.alive_at(x, y - 1) == ((x == 0 || x == 1) && (y - 1 == 0 || y - 1 == 1)));
        assert(m.alive_at(x + 1, y - 1) == ((x + 1 == 0 || x + 1 == 1) && (y - 1 == 0 || y - 1
            == 1)));
        assert(m.alive_at(x - 1, y) == ((x - 1 == 0 || x - 1 == 1) && (y == 0 || y == 1)));
        assert(m.alive_at(x + 1, y) == ((x + 1 == 0 || x + 1 == 1) && (y == 0 || y == 1)));
        assert(m.alive_at(x - 1, y + 1) == ((x - 1 == 0 || x - 1 == 1) && (y + 1 == 0 || y + 1
            == 1)));
        assert(m.alive_at(x, y + 1) == ((x == 0 || x == 1) && (y + 1 == 0 || y + 1 == 1)));
        assert(m.alive_at(x + 1, y + 1) == ((x + 1 == 0 || x + 1 == 1) && (y + 1 == 0 || y + 1
            == 1)));
    }
    assert forall|i: int| 0 <= i < m.cells.len() implies m.step().cells[i] == m.cells[i] by {
        lemma_index_to_coords(w as int, h as int, i);
        let x = i % (w as int);
        let y = i / (w as int);
        assert(m.in_bounds(x, y));
        assert(m.index_of(x, y) == i);
        assert(m.next_alive(x, y) == m.alive_at(x, y));
        assert(m.alive_at(x, y) == m.cells[i]);
    }
    assert(m.step().cells =~= m.cells);
    assert(m.step() =~= m);
}

} // verus!
