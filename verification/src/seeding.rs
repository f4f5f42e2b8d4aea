use vstd::prelude::*;

use crate::universe::valid_dims;
use crate::universe::Universe;
use vstd::pervasive::unreached;

verus! {

/// A cell of the random initial state starts `Alive` when its draw falls
/// below this threshold, so with probability 32/256 = 1/8.
const ALIVE_THRESHOLD: u8 = 32;

/// Relies on `rand::random`: one uniform draw from the thread-local
/// generator. Nothing can be promised of the value that comes back.
#[verifier::external_body]
fn random_byte() -> u8 {
    rand::random::<u8>()
}

/// Builds a grid of the given dimensions whose initial state is random:
/// each cell is marked `Alive` independently with probability 1/8, by one
/// uniform byte draw per cell. Rows are bounded by `height` and columns by
/// `width` throughout, the same convention as the row-major index mapping.
#[verifier::loop_isolation(false)]
pub fn generate_universe(width: u32, height: u32) -> (universe: Universe)
    requires
        valid_dims(width as int, height as int),
    ensures
        universe.spec_width() == width,
        universe.spec_height() == height,
{
    let mut init_alive_cells: Vec<(u32, u32)> = Vec::new();
    let mut row: u32 = 0;
    while row < height
        invariant
            forall|i: int|
                0 <= i < init_alive_cells@.len() ==> (#[trigger] init_alive_cells@[i]).0 < height
                    && init_alive_cells@[i].1 < width,
        decreases height - row,
    {
        let mut column: u32 = 0;
        while column < width
            invariant
                row < height,
                forall|i: int|
                    0 <= i < init_alive_cells@.len() ==> (#[trigger] init_alive_cells@[i]).0
                        < height && init_alive_cells@[i].1 < width,
            decreases width - column,
        {
            let random_number: u8 = random_byte();
            if random_number < ALIVE_THRESHOLD {
                init_alive_cells.push((row, column));
            }
            column = column + 1;
        }
        row = row + 1;
    }
    match Universe::new(width, height, init_alive_cells) {
        Ok(universe) => universe,
        Err(_) => unreached(),
    }
}

} // verus!
