//! The board: a grid of cells stored row by row, its mathematical view and
//! its invariant.

use vstd::prelude::*;
use crate::cell::Cell;
use crate::geometry::adjacent;
use crate::geometry::as_ints;
use crate::geometry::lemma_neighbour_count;
use crate::geometry::lemma_neighbours_are_the_adjacent_cells;
use crate::geometry::lemma_neighbours_ascend;
use crate::geometry::neighbour_seq;

verus! {

/// What a board is, mathematically: its shape and its cells, row by row.
pub struct BoardView {
    pub width: int,
    pub height: int,
    pub cells: Seq<Cell>,
}

/// Whether `idx` is the index of a mined cell.
pub open spec fn is_mine(cells: Seq<Cell>, idx: int) -> bool {
    0 <= idx < cells.len() && cells[idx].mined
}

/// The number of places in `indices` that hold the index of a mined cell.
pub open spec fn count_mined(cells: Seq<Cell>, indices: Seq<int>) -> nat
    decreases indices.len(),
{
    if indices.len() == 0 {
        0
    } else {
        count_mined(cells, indices.drop_last()) + if is_mine(cells, indices.last()) {
            1nat
        } else {
            0nat
        }
    }
}

impl BoardView {
    /// The board has a positive width and height and one cell for each place.
    pub open spec fn well_shaped(self) -> bool {
        &&& 0 < self.width
        &&& 0 < self.height
        &&& self.cells.len() == self.width * self.height
    }

    /// Whether `idx` is the index of a cell of the board.
    pub open spec fn has(self, idx: int) -> bool {
        0 <= idx < self.cells.len()
    }

    /// The number of mined cells among the neighbours of `idx`.
    pub open spec fn mines_around(self, idx: int) -> nat {
        count_mined(self.cells, neighbour_seq(self.width, self.height, idx))
    }

    /// Whether the cell at `idx` is neither exposed nor flagged.
    pub open spec fn hidden(self, idx: int) -> bool {
        self.cells[idx].hidden()
    }

    /// Whether some mined cell is exposed: the game is lost.
    pub open spec fn game_over(self) -> bool {
        exists|idx: int| self.has(idx) && #[trigger] self.cells[idx].exposed && self.cells[idx].mined
    }

    /// What holds of each cell between two operations: only a mined cell can
    /// be both exposed and flagged; an exposed unmined cell carries the number
    /// of mines around it; every other cell carries zero.
    pub open spec fn cell_consistent(self, idx: int) -> bool {
        let cell = self.cells[idx];
        &&& cell.exposed && cell.flagged ==> cell.mined
        &&& cell.mine_count == if cell.exposed && !cell.mined {
            self.mines_around(idx)
        } else {
            0
        }
    }

    /// The invariant of a board: it is well shaped and each of its cells is consistent.
    pub open spec fn inv(self) -> bool {
        &&& self.well_shaped()
        &&& forall|idx: int| self.has(idx) ==> #[trigger] self.cell_consistent(idx)
    }

    /// Whether no cell has been exposed or flagged yet, and every count is zero.
    pub open spec fn untouched(self) -> bool {
        forall|idx: int| self.has(idx) ==> #[trigger] self.cells[idx] == Cell::fresh(self.cells[idx].mined)
    }

    /// Whether the two boards have the same shape and the same mines.
    pub open spec fn same_mines(self, other: BoardView) -> bool {
        &&& self.width == other.width
        &&& self.height == other.height
        &&& self.cells.len() == other.cells.len()
        &&& forall|idx: int| self.has(idx) ==> #[trigger] self.cells[idx].mined == other.cells[idx].mined
    }

    /// The board with `cell` in the place of the cell at `idx`.
    pub open spec fn with_cell(self, idx: int, cell: Cell) -> BoardView {
        BoardView { width: self.width, height: self.height, cells: self.cells.update(idx, cell) }
    }

    /// The untouched board of the given shape whose mines lie where `mines` says.
    pub open spec fn laid_out(width: int, height: int, mines: Seq<bool>) -> BoardView {
        BoardView {
            width,
            height,
            cells: Seq::new(mines.len(), |idx: int| Cell::fresh(mines[idx])),
        }
    }
}

/// The count over a sequence with one more index at its end.
pub proof fn lemma_count_mined_push(cells: Seq<Cell>, indices: Seq<int>, idx: int)
    ensures
        count_mined(cells, indices.push(idx)) == count_mined(cells, indices) + if is_mine(
            cells,
            idx,
        ) {
            1nat
        } else {
            0nat
        },
{
    assert(indices.push(idx).drop_last() =~= indices);
}

/// The count is at most the number of indices.
pub proof fn lemma_count_mined_bound(cells: Seq<Cell>, indices: Seq<int>)
    ensures
        count_mined(cells, indices) <= indices.len(),
    decreases indices.len(),
{
    if indices.len() > 0 {
        lemma_count_mined_bound(cells, indices.drop_last());
    }
}

/// The count depends on the mines alone, at the places that the indices name.
pub proof fn lemma_count_mined_same_mines(a: Seq<Cell>, b: Seq<Cell>, indices: Seq<int>)
    requires
        a.len() == b.len(),
        forall|idx: int| 0 <= idx < a.len() ==> #[trigger] a[idx].mined == b[idx].mined,
    ensures
        count_mined(a, indices) == count_mined(b, indices),
    decreases indices.len(),
{
    if indices.len() > 0 {
        lemma_count_mined_same_mines(a, b, indices.drop_last());
    }
}

/// Where the count is zero, none of the indices names a mined cell.
pub proof fn lemma_count_mined_zero(cells: Seq<Cell>, indices: Seq<int>, idx: int)
    requires
        count_mined(cells, indices) == 0,
        indices.contains(idx),
    ensures
        !is_mine(cells, idx),
    decreases indices.len(),
{
    if indices.last() != idx {
        let at = choose|at: int| 0 <= at < indices.len() && indices[at] == idx;
        assert(indices.drop_last()[at] == idx);
        lemma_count_mined_zero(cells, indices.drop_last(), idx);
    }
}

/// Where none of the indices names a mined cell, the count is zero.
pub proof fn lemma_count_mined_none(cells: Seq<Cell>, indices: Seq<int>)
    requires
        forall|at: int| 0 <= at < indices.len() ==> !is_mine(cells, #[trigger] indices[at]),
    ensures
        count_mined(cells, indices) == 0,
    decreases indices.len(),
{
    if indices.len() > 0 {
        assert(indices.last() == indices[indices.len() - 1]);
        assert forall|at: int| 0 <= at < indices.drop_last().len() implies !is_mine(
            cells,
            #[trigger] indices.drop_last()[at],
        ) by {
            assert(indices.drop_last()[at] == indices[at]);
        }
        lemma_count_mined_none(cells, indices.drop_last());
    }
}

/// The mined cells among `indices`, as a set.
pub open spec fn mined_among(cells: Seq<Cell>, indices: Seq<int>) -> Set<int> {
    Set::new(|idx: int| indices.contains(idx) && is_mine(cells, idx))
}

/// Where no index comes twice, the count is the number of mined cells among
/// the indices.
pub proof fn lemma_count_mined_is_a_cardinality(cells: Seq<Cell>, indices: Seq<int>)
    requires
        indices.no_duplicates(),
    ensures
        mined_among(cells, indices).finite(),
        count_mined(cells, indices) == mined_among(cells, indices).len(),
    decreases indices.len(),
{
    if indices.len() == 0 {
        assert(mined_among(cells, indices) =~= Set::<int>::empty());
    } else {
        let rest = indices.drop_last();
        let last = indices.last();
        lemma_count_mined_is_a_cardinality(cells, rest);
        assert forall|idx: int| indices.contains(idx) <==> rest.contains(idx) || idx == last by {
            if indices.contains(idx) {
                let at = choose|at: int| 0 <= at < indices.len() && indices[at] == idx;
                if at < rest.len() {
                    assert(rest[at] == idx);
                }
            }
            if rest.contains(idx) {
                let at = choose|at: int| 0 <= at < rest.len() && rest[at] == idx;
                assert(indices[at] == idx);
            }
            if idx == last {
                assert(indices[indices.len() - 1] == idx);
            }
        }
        if rest.contains(last) {
            let at = choose|at: int| 0 <= at < rest.len() && rest[at] == last;
            assert(indices[at] == indices[indices.len() - 1]);
        }
        if is_mine(cells, last) {
            assert(mined_among(cells, indices) =~= mined_among(cells, rest).insert(last));
        } else {
            assert(mined_among(cells, indices) =~= mined_among(cells, rest));
        }
    }
}

impl BoardView {
    /// The mined cells adjacent to the cell at `idx`.
    pub open spec fn mined_neighbours(self, idx: int) -> Set<int> {
        Set::new(|other: int| adjacent(self.width, self.height, idx, other) && self.cells[other].mined)
    }
}

/// The number of mines around a cell is the number of mined cells adjacent
/// to it.
pub proof fn lemma_mines_around_counts_the_mined_neighbours(board: BoardView, idx: int)
    requires
        board.well_shaped(),
        board.has(idx),
    ensures
        board.mined_neighbours(idx).finite(),
        board.mines_around(idx) == board.mined_neighbours(idx).len(),
{
    let around = neighbour_seq(board.width, board.height, idx);
    lemma_neighbours_ascend(board.width, board.height, idx);
    assert(around.no_duplicates());
    lemma_count_mined_is_a_cardinality(board.cells, around);
    assert forall|other: int|
        mined_among(board.cells, around).contains(other) <==> board.mined_neighbours(idx).contains(
            other,
        ) by {
        lemma_neighbours_are_the_adjacent_cells(board.width, board.height, idx, other);
    }
    assert(mined_among(board.cells, around) =~= board.mined_neighbours(idx));
}

/// A cell has at most eight mines around it.
pub proof fn lemma_mines_around_bound(board: BoardView, idx: int)
    requires
        board.well_shaped(),
        board.has(idx),
    ensures
        board.mines_around(idx) <= 8,
{
    lemma_neighbour_count(board.width, board.height, idx);
    lemma_count_mined_bound(board.cells, neighbour_seq(board.width, board.height, idx));
}

/// Two boards with the same shape and the same mines have the same number of
/// mines around each cell.
pub proof fn lemma_mines_around_same_mines(a: BoardView, b: BoardView, idx: int)
    requires
        a.same_mines(b),
    ensures
        a.mines_around(idx) == b.mines_around(idx),
{
    lemma_count_mined_same_mines(a.cells, b.cells, neighbour_seq(a.width, a.height, idx));
}

/// A board of cells, stored row by row.
#[derive(Clone, Debug, PartialEq, Eq)]
pub struct Board {
    width: usize,
    height: usize,
    cells: Vec<Cell>,
}

impl View for Board {
    type V = BoardView;

    closed spec fn view(&self) -> BoardView {
        BoardView { width: self.width as int, height: self.height as int, cells: self.cells@ }
    }
}

impl Board {
    /// The board satisfies its invariant.
    pub open spec fn wf(&self) -> bool {
        self@.inv()
    }

    /// The untouched board of the given shape with a mine wherever `mines`
    /// holds `true`, row by row; `None` where the width or the height is zero
    /// or `mines` does not have one entry for each place.
    pub fn from_mines(width: usize, height: usize, mines: &Vec<bool>) -> (result: Option<Board>)
        ensures
            result is Some <==> 0 < width && 0 < height && width * height == mines.len(),
            result matches Some(board) ==> board.wf() && board@ == BoardView::laid_out(
                width as int,
                height as int,
                mines@,
            ),
    {
        if width == 0 || height == 0 {
            return None;
        }
        match width.checked_mul(height) {
            None => None,
            Some(len) => {
                if len != mines.len() {
                    return None;
                }
                let mut cells: Vec<Cell> = Vec::new();
                let mut idx: usize = 0;
                while idx < len
                    invariant
                        len == mines.len(),
                        idx <= len,
                        cells@.len() == idx,
                        forall|at: int| 0 <= at < idx ==> #[trigger] cells@[at] == Cell::fresh(mines@[at]),
                    decreases len - idx,
                {
                    cells.push(Cell::new(mines[idx]));
                    idx += 1;
                }
                let board = Board::from_cells(width, height, cells);
                assert(board@.cells =~= BoardView::laid_out(
                    width as int,
                    height as int,
                    mines@,
                ).cells);
                Some(board)
            },
        }
    }

    /// The board of the given shape that holds the given cells.
    pub(crate) fn from_cells(width: usize, height: usize, cells: Vec<Cell>) -> (board: Board)
        ensures
            board@ == (BoardView { width: width as int, height: height as int, cells: cells@ }),
    {
        Board { width, height, cells }
    }

    /// Puts `cell` in the place of the cell at `idx`.
    pub(crate) fn set_cell(&mut self, idx: usize, cell: Cell)
        requires
            old(self)@.has(idx as int),
        ensures
            final(self)@ == old(self)@.with_cell(idx as int, cell),
    {
        self.cells.set(idx, cell);
    }

    /// The cells of a board are no more than a machine can number.
    pub proof fn lemma_len_fits(&self)
        ensures
            self@.cells.len() <= usize::MAX,
            0 <= self@.width <= usize::MAX,
            0 <= self@.height <= usize::MAX,
    {
        assert(self.cells.len() == self.cells@.len());
    }

    /// The number of columns.
    pub fn width(&self) -> (width: usize)
        ensures
            width == self@.width,
    {
        self.width
    }

    /// The number of rows.
    pub fn height(&self) -> (height: usize)
        ensures
            height == self@.height,
    {
        self.height
    }

    /// The number of cells.
    pub fn len(&self) -> (len: usize)
        ensures
            len == self@.cells.len(),
    {
        self.cells.len()
    }

    /// The cell at `idx`.
    pub fn cell(&self, idx: usize) -> (cell: Cell)
        requires
            self@.has(idx as int),
        ensures
            cell == self@.cells[idx as int],
    {
        self.cells[idx]
    }
}

/// Whether some mined cell is exposed.
pub fn game_over(board: &Board) -> (over: bool)
    ensures
        over == board@.game_over(),
{
    let mut idx: usize = 0;
    while idx < board.cells.len()
        invariant
            idx <= board.cells.len(),
            forall|at: int| 0 <= at < idx ==> !(#[trigger] board@.cells[at].exposed && board@.cells[at].mined),
        decreases board.cells.len() - idx,
    {
        if board.cells[idx].exposed && board.cells[idx].mined {
            assert(board@.has(idx as int));
            return true;
        }
        idx += 1;
    }
    false
}

/// The number of places in `indices` that name a mined cell of the board.
pub fn get_count(board: &Board, indices: &Vec<usize>) -> (count: usize)
    requires
        forall|at: int| 0 <= at < indices.len() ==> board@.has(#[trigger] indices[at] as int),
    ensures
        count == count_mined(board@.cells, as_ints(indices@)),
{
    let ghost ints = as_ints(indices@);
    let mut count: usize = 0;
    let mut at: usize = 0;
    assert(ints.take(0) =~= Seq::<int>::empty());
    while at < indices.len()
        invariant
            at <= indices.len(),
            ints == as_ints(indices@),
            count == count_mined(board@.cells, ints.take(at as int)),
            count <= at,
            forall|at: int| 0 <= at < indices.len() ==> board@.has(#[trigger] indices[at] as int),
        decreases indices.len() - at,
    {
        proof {
            assert(ints.take(at + 1) =~= ints.take(at as int).push(indices[at as int] as int));
            lemma_count_mined_push(board@.cells, ints.take(at as int), indices[at as int] as int);
        }
        if board.cells[indices[at]].mined {
            count += 1;
        }
        at += 1;
    }
    assert(ints.take(at as int) =~= ints);
    count
}

} // verus!
