//! Board generation: every cell is mined or not by an independent draw.

use vstd::prelude::*;
use crate::board::Board;
use crate::cell::Cell;
use crate::geometry::HEIGHT;
use crate::geometry::WIDTH;

verus! {

/// A cell of a generated board is mined with a chance of
/// `MINE_CHANCE_NUMERATOR` in `MINE_CHANCE_DENOMINATOR`.
pub const MINE_CHANCE_NUMERATOR: u32 = 1;

/// See `MINE_CHANCE_NUMERATOR`.
pub const MINE_CHANCE_DENOMINATOR: u32 = 5;

/// Draws `true` with a chance of `numerator` in `denominator`, by
/// `rand::random_ratio` on the thread's generator.
///
/// Not proved, but taken from that function's documentation: the draw is
/// `false` whenever `numerator` is zero and `true` whenever `numerator`
/// equals `denominator`. Nothing is claimed of any other draw. The function
/// panics on a zero denominator and on a numerator above the denominator,
/// which the precondition leaves out.
#[verifier::external_body]
fn random_ratio(numerator: u32, denominator: u32) -> (outcome: bool)
    requires
        0 < denominator,
        numerator <= denominator,
    ensures
        numerator == 0 ==> !outcome,
        numerator == denominator ==> outcome,
{
    rand::random_ratio(numerator, denominator)
}

/// A fresh cell, mined with a chance of `numerator` in `denominator`.
pub fn sample_cell(numerator: u32, denominator: u32) -> (cell: Cell)
    requires
        0 < denominator,
        numerator <= denominator,
    ensures
        cell == Cell::fresh(cell.mined),
        numerator == 0 ==> !cell.mined,
        numerator == denominator ==> cell.mined,
{
    Cell::new(random_ratio(numerator, denominator))
}

/// A fresh cell, mined with the standard chance.
pub fn generate_cell() -> (cell: Cell)
    ensures
        cell == Cell::fresh(cell.mined),
{
    sample_cell(MINE_CHANCE_NUMERATOR, MINE_CHANCE_DENOMINATOR)
}

/// An untouched board of the given shape, each cell mined independently with
/// a chance of `numerator` in `denominator`: no cell where the numerator is
/// zero, every cell where it equals the denominator.
pub fn sample_board(width: usize, height: usize, numerator: u32, denominator: u32) -> (board:
    Board)
    requires
        0 < width,
        0 < height,
        width * height <= usize::MAX,
        0 < denominator,
        numerator <= denominator,
    ensures
        board.wf(),
        board@.width == width,
        board@.height == height,
        board@.untouched(),
        numerator == 0 ==> forall|idx: int| board@.has(idx) ==> !(#[trigger] board@.cells[idx]).mined,
        numerator == denominator ==> forall|idx: int|
            board@.has(idx) ==> (#[trigger] board@.cells[idx]).mined,
{
    let len = width * height;
    let mut cells: Vec<Cell> = Vec::new();
    let mut idx: usize = 0;
    while idx < len
        invariant
            0 < denominator,
            numerator <= denominator,
            idx <= len,
            cells@.len() == idx,
            forall|at: int| 0 <= at < idx ==> #[trigger] cells@[at] == Cell::fresh(cells@[at].mined),
            numerator == 0 ==> forall|at: int| 0 <= at < idx ==> !(#[trigger] cells@[at]).mined,
            numerator == denominator ==> forall|at: int|
                0 <= at < idx ==> (#[trigger] cells@[at]).mined,
        decreases len - idx,
    {
        cells.push(sample_cell(numerator, denominator));
        idx += 1;
    }
    let board = Board::from_cells(width, height, cells);
    assert forall|at: int| board@.has(at) implies #[trigger] board@.cell_consistent(at) by {
        assert(board@.cells[at] == Cell::fresh(board@.cells[at].mined));
    }
    board
}

/// An untouched board of the standard shape, each cell mined independently
/// with the standard chance.
pub fn generate_board() -> (board: Board)
    ensures
        board.wf(),
        board@.width == WIDTH,
        board@.height == HEIGHT,
        board@.cells.len() == WIDTH * HEIGHT,
        board@.untouched(),
{
    sample_board(WIDTH, HEIGHT, MINE_CHANCE_NUMERATOR, MINE_CHANCE_DENOMINATOR)
}

} // verus!
