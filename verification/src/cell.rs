use vstd::prelude::*;

verus! {

/// One cell of the automaton. A cell is either `Dead` or `Alive`; the two
/// states are given numeric values 0 and 1 so that neighbour counts are
/// plain sums of cell values.
#[derive(Clone, Copy, Debug, PartialEq, Eq, Structural)]
pub enum Cell {
    Dead,
    Alive,
}

impl Cell {
    /// The numeric value of a cell: `Alive` counts 1, `Dead` counts 0.
    pub open spec fn spec_value(self) -> int {
        match self {
            Cell::Alive => 1int,
            Cell::Dead => 0int,
        }
    }

    /// Executable counterpart of `spec_value`.
    pub fn value(self) -> (v: u8)
        ensures
            v as int == self.spec_value(),
    {
        match self {
            Cell::Alive => 1,
            Cell::Dead => 0,
        }
    }
}

/// The transition rule applied to every cell once per generation:
/// an `Alive` cell with fewer than 2 alive neighbours dies (under-population),
/// with 2 or 3 it survives, with more than 3 it dies (over-population);
/// a `Dead` cell with exactly 3 alive neighbours becomes `Alive`,
/// otherwise it stays `Dead`.
pub open spec fn spec_cell_transform(current: Cell, alive_neighbours: int) -> Cell {
    match current {
        Cell::Alive => if alive_neighbours < 2 {
            Cell::Dead
        } else if alive_neighbours <= 3 {
            Cell::Alive
        } else {
            Cell::Dead
        },
        Cell::Dead => if alive_neighbours == 3 {
            Cell::Alive
        } else {
            Cell::Dead
        },
    }
}

} // verus!
