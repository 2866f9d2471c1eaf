//! The per-cell record.

use vstd::prelude::*;

verus! {

/// One square of the grid.
///
/// `mined` is fixed when the cell is made. `exposed` only ever goes from
/// `false` to `true`. `flagged` is toggled by the player on unexposed cells.
/// `mine_count` is the number of mined neighbours of an exposed, unmined
/// cell, and zero on every other cell.
#[derive(Clone, Copy, Debug, PartialEq, Eq, Structural)]
pub struct Cell {
    pub mined: bool,
    pub exposed: bool,
    pub flagged: bool,
    pub mine_count: usize,
}

impl Cell {
    /// A fresh cell: neither exposed nor flagged, with a count of zero.
    pub open spec fn fresh(mined: bool) -> Cell {
        Cell { mined, exposed: false, flagged: false, mine_count: 0 }
    }

    /// Whether the cell is neither exposed nor flagged, so that a reveal acts on it.
    pub open spec fn hidden(self) -> bool {
        !self.exposed && !self.flagged
    }

    /// Makes a fresh cell with the given mine state.
    pub fn new(mined: bool) -> (cell: Cell)
        ensures
            cell == Cell::fresh(mined),
    {
        Cell { mined, exposed: false, flagged: false, mine_count: 0 }
    }
}

/// How a cell is to be drawn.
///
/// A cell that is not exposed gives away neither its mine nor its count.
#[derive(Clone, Copy, Debug, PartialEq, Eq, Structural)]
pub struct CellFace {
    /// The cell is drawn as exposed.
    pub exposed: bool,
    /// The cell is drawn as an exposed mine.
    pub mined: bool,
    /// The cell is drawn with a flag.
    pub flagged: bool,
    /// The number written on the cell, if any.
    pub label: Option<usize>,
}

/// How `cell` is to be drawn: as exposed, as a mine and as flagged, and with
/// what number on it. The mine shows only on an exposed cell, and so does
/// the number, which is left out where it is zero.
pub fn view_cell(cell: &Cell) -> (face: CellFace)
    ensures
        face.exposed == cell.exposed,
        face.mined == (cell.exposed && cell.mined),
        face.flagged == cell.flagged,
        face.label == if cell.exposed && cell.mine_count > 0 {
            Some(cell.mine_count)
        } else {
            None
        },
{
    CellFace {
        exposed: cell.exposed,
        mined: cell.exposed && cell.mined,
        flagged: cell.flagged,
        label: if cell.exposed && cell.mine_count > 0 {
            Some(cell.mine_count)
        } else {
            None
        },
    }
}

} // verus!
