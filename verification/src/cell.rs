use vstd::prelude::*;

use crate::cell_type::CellType;
use crate::position::Position;

verus! {

/// One slot of the grid: its coordinate and its occupancy tag.
#[derive(Clone, Copy, PartialEq, Eq, Structural, Debug)]
pub struct Cell {
    pub position: Position,
    pub cell_type: CellType,
}

impl Cell {
    pub fn new(position: Position, cell_type: CellType) -> (r: Cell)
        ensures
            r == (Cell { position, cell_type }),
    {
        Cell { position, cell_type }
    }
}

} // verus!
