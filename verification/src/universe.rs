use vstd::prelude::*;

use crate::cell::spec_cell_transform;
use crate::cell::Cell;

verus! {

/// Error returned when a grid cannot be constructed.
#[derive(Clone, Copy, Debug, PartialEq, Eq, Structural)]
pub enum GridError {
    /// `width` or `height` is zero, or `width * height` does not fit in `u32`.
    InvalidDimensions,
    /// A seed coordinate lies outside `[0, height) x [0, width)`.
    OutOfRangeCoordinate,
}

/// Dimensions the engine accepts: both sides positive, and the total number
/// of cells representable in `u32`, so that every row-major index fits.
pub open spec fn valid_dims(width: int, height: int) -> bool {
    0 < width && 0 < height && width * height <= u32::MAX as int
}

/// The coordinate just before `i` on a wrapped axis of length `n`
/// (an additive bias of `n - 1` keeps the dividend non-negative).
pub open spec fn wrap_prev(i: int, n: int) -> int {
    (i + n - 1) % n
}

/// The coordinate just after `i` on a wrapped axis of length `n`.
pub open spec fn wrap_next(i: int, n: int) -> int {
    (i + 1) % n
}

/// On a wrapped axis, stepping backward or forward from a valid coordinate
/// lands on the expected valid coordinate: the ends of the axis are adjacent.
pub proof fn lemma_wrap(i: int, n: int)
    requires
        0 < n,
        0 <= i < n,
    ensures
        wrap_prev(i, n) == if i == 0 { n - 1 } else { i - 1 },
        wrap_next(i, n) == if i == n - 1 { 0 } else { i + 1 },
        0 <= wrap_prev(i, n) < n,
        0 <= wrap_next(i, n) < n,
{
    if i == 0 {
        vstd::arithmetic::div_mod::lemma_small_mod((n - 1) as nat, n as nat);
    } else {
        vstd::arithmetic::div_mod::lemma_mod_add_multiples_vanish(i - 1, n);
        vstd::arithmetic::div_mod::lemma_small_mod((i - 1) as nat, n as nat);
    }
    if i == n - 1 {
        vstd::arithmetic::div_mod::lemma_mod_self_0(n);
    } else {
        vstd::arithmetic::div_mod::lemma_small_mod((i + 1) as nat, n as nat);
    }
}

/// The row-major index of a valid coordinate lies in `[0, width * height)`.
pub proof fn lemma_index_range(width: int, height: int, row: int, col: int)
    by (nonlinear_arith)
    requires
        0 < width,
        0 < height,
        0 <= row < height,
        0 <= col < width,
    ensures
        0 <= row * width + col < width * height,
{
}

/// The row-major index mapping is injective on the valid coordinate domain.
pub proof fn lemma_index_injective(
    width: int,
    height: int,
    r1: int,
    c1: int,
    r2: int,
    c2: int,
)
    by (nonlinear_arith)
    requires
        0 < width,
        0 < height,
        0 <= r1 < height,
        0 <= c1 < width,
        0 <= r2 < height,
        0 <= c2 < width,
        r1 * width + c1 == r2 * width + c2,
    ensures
        r1 == r2,
        c1 == c2,
{
}

/// Every index in `[0, width * height)` is the row-major index of some valid
/// coordinate; together with the two lemmas above, the mapping is a bijection
/// between the valid coordinate domain and `[0, width * height)`.
pub proof fn lemma_index_onto(width: int, height: int, idx: int)
    by (nonlinear_arith)
    requires
        0 < width,
        0 < height,
        0 <= idx < width * height,
    ensures
        0 <= idx / width < height,
        0 <= idx % width < width,
        (idx / width) * width + idx % width == idx,
{
}

/// The glyph that renders one cell: a filled square for `Alive`, an open
/// square for `Dead`.
pub open spec fn glyph(cell: Cell) -> char {
    if cell is Alive {
        '◼'
    } else {
        '◻'
    }
}

/// The one-glyph string for a cell.
fn glyph_str(cell: Cell) -> (s: &'static str)
    ensures
        s@.len() == 1,
        s@[0] == glyph(cell),
{
    proof {
        reveal_strlit("◼");
        reveal_strlit("◻");
    }
    match cell {
        Cell::Alive => "◼",
        Cell::Dead => "◻",
    }
}

/// A toroidal Game of Life grid: a fixed `width` and `height` and a row-major
/// sequence of `width * height` cells. The grid is mutated only by `tick`,
/// which replaces the whole cell sequence at once.
#[derive(Debug)]
pub struct Universe {
    width: u32,
    height: u32,
    cells: Vec<Cell>,
}

impl Universe {
    /// Well-formedness, maintained at all times: the dimensions are valid and
    /// the cell sequence has exactly one cell per coordinate.
    #[verifier::type_invariant]
    pub closed spec fn wf(self) -> bool {
        &&& valid_dims(self.width as int, self.height as int)
        &&& self.cells@.len() == (self.width as int) * (self.height as int)
    }

    /// The grid's width, as a mathematical integer.
    pub closed spec fn spec_width(self) -> int {
        self.width as int
    }

    /// The grid's height, as a mathematical integer.
    pub closed spec fn spec_height(self) -> int {
        self.height as int
    }

    /// Whether `(row, col)` is a valid coordinate of this grid.
    pub open spec fn in_bounds(self, row: int, col: int) -> bool {
        0 <= row < self.spec_height() && 0 <= col < self.spec_width()
    }

    /// The cell stored at `(row, col)`, through the row-major index mapping.
    pub closed spec fn cell_at(self, row: int, col: int) -> Cell {
        self.cells@[row * self.spec_width() + col]
    }

    /// Builds a grid of the given dimensions with every listed coordinate
    /// `Alive` and every other cell `Dead`. Listing a coordinate twice is
    /// idempotent. Invalid dimensions and out-of-range coordinates are
    /// rejected, so a malformed or truncated grid can never be produced;
    /// the dimensions are checked first.
    #[verifier::loop_isolation(false)]
    pub fn new(width: u32, height: u32, alive_cells: Vec<(u32, u32)>) -> (result: Result<
        Universe,
        GridError,
    >)
        ensures
            result is Ok <==> valid_dims(width as int, height as int) && (forall|i: int|
                0 <= i < alive_cells@.len() ==> (#[trigger] alive_cells@[i]).0 < height
                    && alive_cells@[i].1 < width),
            !valid_dims(width as int, height as int) ==> result == Err::<Universe, GridError>(
                GridError::InvalidDimensions,
            ),
            valid_dims(width as int, height as int) && (exists|i: int|
                0 <= i < alive_cells@.len() && ((#[trigger] alive_cells@[i]).0 >= height
                    || alive_cells@[i].1 >= width)) ==> result == Err::<Universe, GridError>(
                GridError::OutOfRangeCoordinate,
            ),
            result matches Ok(g) ==> {
                &&& g.spec_width() == width
                &&& g.spec_height() == height
                &&& forall|row: int, col: int|
                    g.in_bounds(row, col) ==> ((#[trigger] g.cell_at(row, col)) is Alive
                        <==> alive_cells@.contains((row as u32, col as u32)))
            },
    {
        if width == 0 || height == 0 {
            return Err(GridError::InvalidDimensions);
        }
        proof {
            assert((width as int) * (height as int) <= (u32::MAX as int) * (u32::MAX as int))
                by (nonlinear_arith)
                requires
                    width <= u32::MAX,
                    height <= u32::MAX,
            ;
        }
        if (width as u64) * (height as u64) > u32::MAX as u64 {
            return Err(GridError::InvalidDimensions);
        }
        let mut i: usize = 0;
        while i < alive_cells.len()
            invariant
                i <= alive_cells@.len(),
                forall|j: int|
                    0 <= j < i ==> (#[trigger] alive_cells@[j]).0 < height && alive_cells@[j].1
                        < width,
            decreases alive_cells@.len() - i,
        {
            let pair = alive_cells[i];
            if pair.0 >= height || pair.1 >= width {
                return Err(GridError::OutOfRangeCoordinate);
            }
            i = i + 1;
        }
        let total: u32 = ((width as u64) * (height as u64)) as u32;
        let mut cells: Vec<Cell> = Vec::new();
        let mut k: u32 = 0;
        while k < total
            invariant
                k <= total,
                total as int == (width as int) * (height as int),
                cells@.len() == k as int,
                forall|j: int| 0 <= j < k ==> (#[trigger] cells@[j]) is Dead,
            decreases total - k,
        {
            cells.push(Cell::Dead);
            k = k + 1;
        }
        proof {
            assert forall|row: int, col: int|
                0 <= row < height && 0 <= col < width implies !((#[trigger] cells@[row * width
                + col]) is Alive) by {
                lemma_index_range(width as int, height as int, row, col);
            }
        }
        let mut i: usize = 0;
        while i < alive_cells.len()
            invariant
                i <= alive_cells@.len(),
                0 < width,
                0 < height,
                valid_dims(width as int, height as int),
                forall|j: int|
                    0 <= j < alive_cells@.len() ==> (#[trigger] alive_cells@[j]).0 < height
                        && alive_cells@[j].1 < width,
                cells@.len() == (width as int) * (height as int),
                forall|row: int, col: int|
                    0 <= row < height && 0 <= col < width ==> ((#[trigger] cells@[row * width
                        + col]) is Alive <==> (exists|j: int|
                        0 <= j < i && alive_cells@[j] == (row as u32, col as u32))),
            decreases alive_cells@.len() - i,
        {
            let pair = alive_cells[i];
            proof {
                lemma_index_range(width as int, height as int, pair.0 as int, pair.1 as int);
            }
            let idx: usize = (pair.0 * width + pair.1) as usize;
            cells[idx] = Cell::Alive;
            proof {
                assert forall|row: int, col: int|
                    0 <= row < height && 0 <= col < width implies ((#[trigger] cells@[row * width
                    + col]) is Alive <==> (exists|j: int|
                    0 <= j < i + 1 && alive_cells@[j] == (row as u32, col as u32))) by {
                    lemma_index_range(width as int, height as int, row, col);
                    if row == pair.0 as int && col == pair.1 as int {
                        assert(alive_cells@[i as int] == (row as u32, col as u32));
                    } else {
                        if row * width + col == pair.0 as int * width + pair.1 as int {
                            lemma_index_injective(
                                width as int,
                                height as int,
                                row,
                                col,
                                pair.0 as int,
                                pair.1 as int,
                            );
                        }
                        assert(row * width + col != pair.0 as int * width + pair.1 as int);
                        assert(alive_cells@[i as int] != (row as u32, col as u32));
                    }
                }
            }
            i = i + 1;
        }
        Ok(Universe { width, height, cells })
    }

    pub fn width(&self) -> (w: u32)
        ensures
            w as int == self.spec_width(),
    {
        self.width
    }

    pub fn height(&self) -> (h: u32)
        ensures
            h as int == self.spec_height(),
    {
        self.height
    }

    /// The row-major index of a valid coordinate: `row * width + column`.
    pub fn get_index(&self, row: u32, column: u32) -> (idx: usize)
        requires
            self.in_bounds(row as int, column as int),
        ensures
            idx == row as int * self.spec_width() + column as int,
    {
        proof {
            use_type_invariant(&*self);
            lemma_index_range(
                self.spec_width(),
                self.spec_height(),
                row as int,
                column as int,
            );
        }
        (row * self.width + column) as usize
    }

    /// The number of alive neighbours of `(row, col)`: the sum of the cell
    /// values at the 8 offsets drawn from `{-1, 0, +1} x {-1, 0, +1}` without
    /// `(0, 0)`, each wrapped onto the torus. On an axis of length 1 a
    /// neighbour coordinate wraps onto the cell's own row or column; every
    /// one of the 8 offsets still contributes the cell it lands on, so such
    /// a cell is deliberately counted once per offset.
    pub open spec fn spec_alive_neighbour_count(self, row: int, col: int) -> int {
        let pr = wrap_prev(row, self.spec_height());
        let nr = wrap_next(row, self.spec_height());
        let pc = wrap_prev(col, self.spec_width());
        let nc = wrap_next(col, self.spec_width());
        self.cell_at(pr, pc).spec_value() + self.cell_at(pr, col).spec_value()
            + self.cell_at(pr, nc).spec_value() + self.cell_at(row, pc).spec_value()
            + self.cell_at(row, nc).spec_value() + self.cell_at(nr, pc).spec_value()
            + self.cell_at(nr, col).spec_value() + self.cell_at(nr, nc).spec_value()
    }

    /// The state the cell at `(row, col)` takes in the next generation:
    /// the rule table applied to its current state and neighbour count.
    pub open spec fn step_cell(self, row: int, col: int) -> Cell {
        spec_cell_transform(
            self.cell_at(row, col),
            self.spec_alive_neighbour_count(row, col),
        )
    }

    /// Read-only access to a single cell's state.
    pub fn get_cell(&self, row: u32, column: u32) -> (cell: Cell)
        requires
            self.in_bounds(row as int, column as int),
        ensures
            cell == self.cell_at(row as int, column as int),
    {
        proof {
            use_type_invariant(&*self);
            lemma_index_range(
                self.spec_width(),
                self.spec_height(),
                row as int,
                column as int,
            );
        }
        let idx = self.get_index(row, column);
        self.cells[idx]
    }

    /// The numeric value of the cell at a valid coordinate.
    fn cell_value_at(&self, row: u32, column: u32) -> (v: u8)
        requires
            self.in_bounds(row as int, column as int),
        ensures
            v as int == self.cell_at(row as int, column as int).spec_value(),
            v <= 1,
    {
        self.get_cell(row, column).value()
    }

    /// Counts the alive cells among the 8 wrapped neighbours of
    /// `(row, column)`. On an axis of length 1 the wrapped neighbour
    /// coordinates coincide with the cell's own, and each of the 8 offsets
    /// still contributes the cell it lands on.
    pub fn alive_neighbour_count(&self, row: u32, column: u32) -> (count: u8)
        requires
            self.in_bounds(row as int, column as int),
        ensures
            count as int == self.spec_alive_neighbour_count(row as int, column as int),
            count <= 8,
    {
        proof {
            use_type_invariant(&*self);
            lemma_wrap(row as int, self.spec_height());
            lemma_wrap(column as int, self.spec_width());
        }
        let pr: u32 = if row == 0 {
            self.height - 1
        } else {
            row - 1
        };
        let nr: u32 = if row == self.height - 1 {
            0
        } else {
            row + 1
        };
        let pc: u32 = if column == 0 {
            self.width - 1
        } else {
            column - 1
        };
        let nc: u32 = if column == self.width - 1 {
            0
        } else {
            column + 1
        };
        self.cell_value_at(pr, pc) + self.cell_value_at(pr, column) + self.cell_value_at(pr, nc)
            + self.cell_value_at(row, pc) + self.cell_value_at(row, nc)
            + self.cell_value_at(nr, pc) + self.cell_value_at(nr, column)
            + self.cell_value_at(nr, nc)
    }

    /// Advances the grid one generation. Every neighbour count is evaluated
    /// against the current generation's cells while the next generation is
    /// written to a separate buffer; the buffer replaces the cell sequence
    /// only once every position has been computed, so no intermediate state
    /// mixing the two generations is ever visible.
    #[verifier::loop_isolation(false)]
    pub fn tick(&mut self)
        ensures
            final(self).spec_width() == old(self).spec_width(),
            final(self).spec_height() == old(self).spec_height(),
            forall|row: int, col: int|
                old(self).in_bounds(row, col) ==> #[trigger] final(self).cell_at(row, col) == old(
                    self,
                ).step_cell(row, col),
    {
        proof {
            use_type_invariant(&*self);
        }
        let width = self.width;
        let height = self.height;
        let mut new_cells: Vec<Cell> = Vec::new();
        let mut row: u32 = 0;
        while row < height
            invariant
                row <= height,
                new_cells@.len() == row as int * width as int,
                forall|i: int, j: int|
                    0 <= i < row && 0 <= j < width ==> #[trigger] new_cells@[i * width + j]
                        == self.step_cell(i, j),
            decreases height - row,
        {
            let mut col: u32 = 0;
            while col < width
                invariant
                    col <= width,
                    row < height,
                    new_cells@.len() == row as int * width as int + col as int,
                    forall|i: int, j: int|
                        0 <= i < row && 0 <= j < width ==> #[trigger] new_cells@[i * width + j]
                            == self.step_cell(i, j),
                    forall|j: int|
                        0 <= j < col ==> #[trigger] new_cells@[row as int * width as int + j]
                            == self.step_cell(row as int, j),
                decreases width - col,
            {
                let current_cell = self.get_cell(row, col);
                let count = self.alive_neighbour_count(row, col);
                let ghost pre = new_cells@;
                new_cells.push(Self::cell_transform(current_cell, count));
                proof {
                    assert forall|i: int, j: int|
                        0 <= i < row && 0 <= j < width implies #[trigger] new_cells@[i * width + j]
                        == self.step_cell(i, j) by {
                        lemma_index_range(width as int, row as int, i, j);
                        assert(width as int * row as int == row as int * width as int)
                            by (nonlinear_arith);
                        assert(i * width + j < pre.len());
                        assert(pre[i * width + j] == self.step_cell(i, j));
                    }
                }
                col = col + 1;
            }
            proof {
                assert((row + 1) as int * width as int == row as int * width as int + width as int)
                    by (nonlinear_arith);
            }
            row = row + 1;
        }
        proof {
            assert(height as int * width as int == width as int * height as int)
                by (nonlinear_arith);
        }
        self.cells = new_cells;
        proof {
            assert forall|r: int, c: int| old(self).in_bounds(r, c) implies #[trigger] self.cell_at(
                r,
                c,
            ) == old(self).step_cell(r, c) by {
                lemma_index_range(width as int, height as int, r, c);
                assert(new_cells@[r * (width as int) + c] == old(self).step_cell(r, c));
            }
        }
    }

    /// Renders the grid as text: one line per row, rows in order, one glyph
    /// per cell in column order within each row, each row closed by a line
    /// break. Each line therefore occupies `width + 1` characters of the
    /// result.
    #[verifier::loop_isolation(false)]
    pub fn render(&self) -> (text: String)
        ensures
            text@.len() == self.spec_height() * (self.spec_width() + 1),
            forall|row: int, col: int|
                self.in_bounds(row, col) ==> #[trigger] text@[row * (self.spec_width() + 1) + col]
                    == glyph(self.cell_at(row, col)),
            forall|row: int|
                0 <= row < self.spec_height() ==> #[trigger] text@[row * (self.spec_width() + 1)
                    + self.spec_width()] == '\n',
    {
        proof {
            use_type_invariant(&*self);
        }
        let width = self.width;
        let height = self.height;
        let mut text = String::new();
        let mut row: u32 = 0;
        while row < height
            invariant
                row <= height,
                text@.len() == row as int * (self.spec_width() + 1),
                forall|i: int, j: int|
                    0 <= i < row && 0 <= j < width ==> #[trigger] text@[i * (self.spec_width() + 1)
                        + j] == glyph(self.cell_at(i, j)),
                forall|i: int|
                    0 <= i < row ==> #[trigger] text@[i * (self.spec_width() + 1)
                        + self.spec_width()] == '\n',
            decreases height - row,
        {
            let mut col: u32 = 0;
            while col < width
                invariant
                    col <= width,
                    row < height,
                    text@.len() == row as int * (self.spec_width() + 1) + col as int,
                    forall|i: int, j: int|
                        0 <= i < row && 0 <= j < width ==> #[trigger] text@[i * (self.spec_width()
                            + 1) + j] == glyph(self.cell_at(i, j)),
                    forall|i: int|
                        0 <= i < row ==> #[trigger] text@[i * (self.spec_width() + 1)
                            + self.spec_width()] == '\n',
                    forall|j: int|
                        0 <= j < col ==> #[trigger] text@[row as int * (self.spec_width() + 1) + j]
                            == glyph(self.cell_at(row as int, j)),
                decreases width - col,
            {
                let ghost pre = text@;
                let cell = self.get_cell(row, col);
                text.append(glyph_str(cell));
                proof {
                    assert forall|i: int, j: int|
                        0 <= i < row && 0 <= j < width implies #[trigger] text@[i
                        * (self.spec_width() + 1) + j] == glyph(self.cell_at(i, j)) by {
                        lemma_index_range(self.spec_width() + 1, row as int, i, j);
                        assert((self.spec_width() + 1) * row as int == row as int
                            * (self.spec_width() + 1)) by (nonlinear_arith);
                        assert(text@[i * (self.spec_width() + 1) + j] == pre[i * (self.spec_width()
                            + 1) + j]);
                    }
                    assert forall|i: int|
                        0 <= i < row implies #[trigger] text@[i * (self.spec_width() + 1)
                        + self.spec_width()] == '\n' by {
                        lemma_index_range(
                            self.spec_width() + 1,
                            row as int,
                            i,
                            self.spec_width(),
                        );
                        assert((self.spec_width() + 1) * row as int == row as int
                            * (self.spec_width() + 1)) by (nonlinear_arith);
                        assert(text@[i * (self.spec_width() + 1) + self.spec_width()] == pre[i
                            * (self.spec_width() + 1) + self.spec_width()]);
                    }
                }
                col = col + 1;
            }
            let ghost pre = text@;
            text.append("\n");
            proof {
                reveal_strlit("\n");
                assert forall|i: int, j: int|
                    0 <= i < row && 0 <= j < width implies #[trigger] text@[i * (self.spec_width()
                    + 1) + j] == glyph(self.cell_at(i, j)) by {
                    lemma_index_range(self.spec_width() + 1, row as int, i, j);
                    assert((self.spec_width() + 1) * row as int == row as int * (self.spec_width()
                        + 1)) by (nonlinear_arith);
                    assert(text@[i * (self.spec_width() + 1) + j] == pre[i * (self.spec_width() + 1)
                        + j]);
                }
                assert forall|i: int|
                    0 <= i < row implies #[trigger] text@[i * (self.spec_width() + 1)
                    + self.spec_width()] == '\n' by {
                    lemma_index_range(self.spec_width() + 1, row as int, i, self.spec_width());
                    assert((self.spec_width() + 1) * row as int == row as int * (self.spec_width()
                        + 1)) by (nonlinear_arith);
                    assert(text@[i * (self.spec_width() + 1) + self.spec_width()] == pre[i
                        * (self.spec_width() + 1) + self.spec_width()]);
                }
                assert((row + 1) as int * (self.spec_width() + 1) == row as int * (self.spec_width()
                    + 1) + (self.spec_width() + 1)) by (nonlinear_arith);
            }
            row = row + 1;
        }
        text
    }

    /// The transition rule applied to one cell, as a pure function of its
    /// current state and its alive-neighbour count.
    pub fn cell_transform(current_cell: Cell, alive_neighbour_count: u8) -> (next: Cell)
        ensures
            next == spec_cell_transform(current_cell, alive_neighbour_count as int),
    {
        match current_cell {
            Cell::Alive => if alive_neighbour_count < 2 || alive_neighbour_count > 3 {
                Cell::Dead
            } else {
                Cell::Alive
            },
            Cell::Dead => if alive_neighbour_count == 3 {
                Cell::Alive
            } else {
                Cell::Dead
            },
        }
    }
}


/// On a grid whose cells are all `Dead`, every cell has 0 alive neighbours
/// and every cell stays `Dead` after a generation: the all-dead grid is a
/// fixed point of the update.
pub proof fn lemma_all_dead_fixed_point(g: Universe)
    requires
        g.wf(),
        forall|row: int, col: int|
            g.in_bounds(row, col) ==> (#[trigger] g.cell_at(row, col)) is Dead,
    ensures
        forall|row: int, col: int|
            g.in_bounds(row, col) ==> #[trigger] g.spec_alive_neighbour_count(row, col) == 0,
        forall|row: int, col: int|
            g.in_bounds(row, col) ==> (#[trigger] g.step_cell(row, col)) is Dead,
{
    assert forall|row: int, col: int|
        g.in_bounds(row, col) implies #[trigger] g.spec_alive_neighbour_count(row, col) == 0 by {
        lemma_wrap(row, g.spec_height());
        lemma_wrap(col, g.spec_width());
        assert(g.in_bounds(wrap_prev(row, g.spec_height()), wrap_prev(col, g.spec_width())));
        assert(g.in_bounds(wrap_prev(row, g.spec_height()), col));
        assert(g.in_bounds(wrap_prev(row, g.spec_height()), wrap_next(col, g.spec_width())));
        assert(g.in_bounds(row, wrap_prev(col, g.spec_width())));
        assert(g.in_bounds(row, wrap_next(col, g.spec_width())));
        assert(g.in_bounds(wrap_next(row, g.spec_height()), wrap_prev(col, g.spec_width())));
        assert(g.in_bounds(wrap_next(row, g.spec_height()), col));
        assert(g.in_bounds(wrap_next(row, g.spec_height()), wrap_next(col, g.spec_width())));
    }
}

/// Under-population at its sharpest: an `Alive` cell with no alive
/// neighbours is `Dead` in the next generation.
pub proof fn lemma_isolated_cell_dies(g: Universe, row: int, col: int)
    requires
        g.wf(),
        g.in_bounds(row, col),
        g.cell_at(row, col) is Alive,
        g.spec_alive_neighbour_count(row, col) == 0,
    ensures
        g.step_cell(row, col) is Dead,
{
}

/// The 2x2 block of `Alive` cells at rows 1..=2, columns 1..=2 of an
/// otherwise dead grid with both sides at least 4 is a still life: one
/// update maps every cell to itself, so any number of generations leaves
/// the grid unchanged.
pub proof fn lemma_block_still_life(g: Universe)
    requires
        g.wf(),
        g.spec_width() >= 4,
        g.spec_height() >= 4,
        forall|row: int, col: int|
            g.in_bounds(row, col) ==> (((#[trigger] g.cell_at(row, col)) is Alive) <==> ((row == 1
                || row == 2) && (col == 1 || col == 2))),
    ensures
        forall|row: int, col: int|
            g.in_bounds(row, col) ==> #[trigger] g.step_cell(row, col) == g.cell_at(row, col),
{
    assert forall|row: int, col: int|
        g.in_bounds(row, col) implies #[trigger] g.step_cell(row, col) == g.cell_at(row, col) by {
        lemma_wrap(row, g.spec_height());
        lemma_wrap(col, g.spec_width());
        assert(g.in_bounds(wrap_prev(row, g.spec_height()), wrap_prev(col, g.spec_width())));
        assert(g.in_bounds(wrap_prev(row, g.spec_height()), col));
        assert(g.in_bounds(wrap_prev(row, g.spec_height()), wrap_next(col, g.spec_width())));
        assert(g.in_bounds(row, wrap_prev(col, g.spec_width())));
        assert(g.in_bounds(row, wrap_next(col, g.spec_width())));
        assert(g.in_bounds(wrap_next(row, g.spec_height()), wrap_prev(col, g.spec_width())));
        assert(g.in_bounds(wrap_next(row, g.spec_height()), col));
        assert(g.in_bounds(wrap_next(row, g.spec_height()), wrap_next(col, g.spec_width())));
    }
}

/// Three `Alive` cells in an L at (1,1), (1,2) and (2,1) of an otherwise
/// dead grid with both sides at least 4: each of the three has exactly 2
/// alive neighbours and survives, and the dead diagonal cell (2,2) has
/// exactly 3 and is born.
pub proof fn lemma_l_shape_births_block(g: Universe)
    requires
        g.wf(),
        g.spec_width() >= 4,
        g.spec_height() >= 4,
        forall|row: int, col: int|
            g.in_bounds(row, col) ==> (((#[trigger] g.cell_at(row, col)) is Alive) <==> ((row == 1
                && col == 1) || (row == 1 && col == 2) || (row == 2 && col == 1))),
    ensures
        g.spec_alive_neighbour_count(1, 1) == 2,
        g.spec_alive_neighbour_count(1, 2) == 2,
        g.spec_alive_neighbour_count(2, 1) == 2,
        g.spec_alive_neighbour_count(2, 2) == 3,
        g.step_cell(1, 1) is Alive,
        g.step_cell(1, 2) is Alive,
        g.step_cell(2, 1) is Alive,
        g.step_cell(2, 2) is Alive,
{
    lemma_wrap(1, g.spec_height());
    lemma_wrap(2, g.spec_height());
    lemma_wrap(1, g.spec_width());
    lemma_wrap(2, g.spec_width());
    assert forall|row: int, col: int|
        0 <= row < 4 && 0 <= col < 4 implies g.in_bounds(row, col) by {}
}

/// The neighbour-counting policy on a degenerate axis, stated exactly: on a
/// grid of width 1 the wrapped left and right neighbours coincide with the
/// cell's own column, so the row above contributes 3 copies of its one
/// cell, the cell's own row contributes 2 copies of the cell itself, and
/// the row below contributes 3 copies of its one cell.
pub proof fn lemma_width_one_policy(g: Universe, row: int)
    requires
        g.wf(),
        g.spec_width() == 1,
        0 <= row < g.spec_height(),
    ensures
        g.spec_alive_neighbour_count(row, 0) == 3 * g.cell_at(
            wrap_prev(row, g.spec_height()),
            0,
        ).spec_value() + 2 * g.cell_at(row, 0).spec_value() + 3 * g.cell_at(
            wrap_next(row, g.spec_height()),
            0,
        ).spec_value(),
{
    lemma_wrap(0, 1);
}

/// The same policy on a grid of height 1: the wrapped upper and lower
/// neighbours coincide with the cell's own row.
pub proof fn lemma_height_one_policy(g: Universe, col: int)
    requires
        g.wf(),
        g.spec_height() == 1,
        0 <= col < g.spec_width(),
    ensures
        g.spec_alive_neighbour_count(0, col) == 3 * g.cell_at(
            0,
            wrap_prev(col, g.spec_width()),
        ).spec_value() + 2 * g.cell_at(0, col).spec_value() + 3 * g.cell_at(
            0,
            wrap_next(col, g.spec_width()),
        ).spec_value(),
{
    lemma_wrap(0, 1);
}

/// On the 1x1 grid all 8 offsets wrap onto the single cell, so its
/// neighbour count is 8 times its own value.
pub proof fn lemma_single_cell_policy(g: Universe)
    requires
        g.wf(),
        g.spec_width() == 1,
        g.spec_height() == 1,
    ensures
        g.spec_alive_neighbour_count(0, 0) == 8 * g.cell_at(0, 0).spec_value(),
{
    lemma_wrap(0, 1);
}


} // verus!
