//! The reveal: what a pick on a cell exposes.
//!
//! A pick on an exposed or flagged cell changes nothing. A pick on a hidden
//! mine exposes every mine. A pick on any other hidden cell floods: it exposes
//! the cell, and where a cell so exposed has no mine around it, its hidden
//! neighbours as well, and so on. A flagged cell is neither exposed nor passed
//! through.

use vstd::prelude::*;
use crate::board::get_count;
use crate::board::lemma_count_mined_none;
use crate::board::lemma_count_mined_zero;
use crate::board::lemma_mines_around_bound;
use crate::board::lemma_mines_around_same_mines;
use crate::board::Board;
use crate::board::BoardView;
use crate::cell::Cell;
use crate::geometry::adjacent;
use crate::geometry::as_ints;
use crate::geometry::column;
use crate::geometry::index_at;
use crate::geometry::lemma_coordinates_of_index;
use crate::geometry::lemma_index_is_unique;
use crate::geometry::lemma_index_of_coordinates;
use crate::geometry::lemma_neighbours_are_the_adjacent_cells;
use crate::geometry::neighbour_seq;
use crate::geometry::neighbours;
use crate::geometry::row;

verus! {

impl BoardView {
    /// The cell at `idx` once the loss has exposed it: exposed where it is
    /// mined, unchanged where it is not.
    pub open spec fn cell_after_loss(self, idx: int) -> Cell {
        let cell = self.cells[idx];
        if cell.mined {
            Cell { mined: cell.mined, exposed: true, flagged: cell.flagged, mine_count: cell.mine_count }
        } else {
            cell
        }
    }

    /// The board with every mined cell exposed and nothing else changed.
    pub open spec fn with_mines_exposed(self) -> BoardView {
        BoardView {
            width: self.width,
            height: self.height,
            cells: Seq::new(self.cells.len(), |idx: int| self.cell_after_loss(idx)),
        }
    }

    /// The cell at `idx` once a flood has exposed it: exposed, with the
    /// number of mines around it.
    pub open spec fn cell_after_flood(self, idx: int) -> Cell {
        let cell = self.cells[idx];
        Cell {
            mined: cell.mined,
            exposed: true,
            flagged: cell.flagged,
            mine_count: self.mines_around(idx) as usize,
        }
    }

    /// Whether the flood passes from the cell at place `at` of `path` to the
    /// next one: the two are adjacent and the first has no mine around it.
    pub open spec fn flood_step(self, path: Seq<int>, at: int) -> bool {
        adjacent(self.width, self.height, path[at], path[at + 1]) && self.mines_around(path[at])
            == 0
    }

    /// Whether a flood can run along `path`: every cell on it is hidden, and
    /// the flood passes from each cell to the next.
    pub open spec fn flood_path(self, path: Seq<int>) -> bool {
        &&& 0 < path.len()
        &&& forall|at: int|
            0 <= at < path.len() ==> self.has(#[trigger] path[at]) && self.hidden(path[at])
        &&& forall|at: int| 0 <= at < path.len() - 1 ==> #[trigger] self.flood_step(path, at)
    }

    /// Whether a flood that starts at `from` reaches `to`.
    pub open spec fn floods_to(self, from: int, to: int) -> bool {
        exists|path: Seq<int>| #[trigger]
            self.flood_path(path) && path.first() == from && path.last() == to
    }

    /// The board after a flood from `from`: the cells that the flood reaches
    /// are exposed and carry their counts, the others are unchanged.
    pub open spec fn with_flood_exposed(self, from: int) -> BoardView {
        BoardView {
            width: self.width,
            height: self.height,
            cells: Seq::new(
                self.cells.len(),
                |idx: int|
                    if self.floods_to(from, idx) {
                        self.cell_after_flood(idx)
                    } else {
                        self.cells[idx]
                    },
            ),
        }
    }

    /// The board after a pick on `pos`.
    pub open spec fn revealed(self, pos: int) -> BoardView {
        if !self.hidden(pos) {
            self
        } else if self.cells[pos].mined {
            self.with_mines_exposed()
        } else {
            self.with_flood_exposed(pos)
        }
    }

    /// Whether `path` runs over adjacent cells of the board, each but the
    /// last with no mine around it.
    pub open spec fn zero_path(self, path: Seq<int>) -> bool {
        &&& 0 < path.len()
        &&& forall|at: int| 0 <= at < path.len() ==> self.has(#[trigger] path[at])
        &&& forall|at: int| 0 <= at < path.len() - 1 ==> #[trigger] self.flood_step(path, at)
    }
}

/// A flood from a hidden cell reaches that cell.
pub proof fn lemma_flood_reaches_start(board: BoardView, from: int)
    requires
        board.has(from),
        board.hidden(from),
    ensures
        board.floods_to(from, from),
{
    let path = seq![from];
    assert(path[0] == from);
    assert(board.flood_path(path));
}

/// A flood that reaches a cell with no mine around it goes on to each hidden
/// neighbour of that cell.
pub proof fn lemma_flood_extends(board: BoardView, from: int, via: int, to: int)
    requires
        board.floods_to(from, via),
        board.mines_around(via) == 0,
        adjacent(board.width, board.height, via, to),
        board.has(to),
        board.hidden(to),
    ensures
        board.floods_to(from, to),
{
    let path = choose|path: Seq<int>| #[trigger]
        board.flood_path(path) && path.first() == from && path.last() == via;
    let longer = path.push(to);
    assert forall|at: int| 0 <= at < longer.len() implies board.has(#[trigger] longer[at])
        && board.hidden(longer[at]) by {
        if at < path.len() {
            assert(longer[at] == path[at]);
        }
    }
    assert forall|at: int| 0 <= at < longer.len() - 1 implies #[trigger] board.flood_step(
        longer,
        at,
    ) by {
        assert(longer[at] == path[at]);
        if at < path.len() - 1 {
            assert(longer[at + 1] == path[at + 1]);
            assert(board.flood_step(path, at));
        }
    }
    assert(board.flood_path(longer));
    assert(longer.first() == path[0]);
}

/// A flood reaches hidden cells of the board only, and, where it starts on an
/// unmined cell, unmined cells only.
pub proof fn lemma_flood_reaches_no_mine(board: BoardView, from: int, to: int)
    requires
        board.well_shaped(),
        board.floods_to(from, to),
    ensures
        board.has(from),
        board.hidden(from),
        board.has(to),
        board.hidden(to),
        !board.cells[from].mined ==> !board.cells[to].mined,
{
    let path = choose|path: Seq<int>| #[trigger]
        board.flood_path(path) && path.first() == from && path.last() == to;
    assert(path[0] == from);
    assert(path[path.len() - 1] == to);
    if path.len() > 1 {
        let before = path.len() - 2;
        assert(board.flood_step(path, before));
        let via = path[before];
        assert(board.has(via));
        lemma_neighbours_are_the_adjacent_cells(board.width, board.height, via, to);
        lemma_count_mined_zero(
            board.cells,
            neighbour_seq(board.width, board.height, via),
            to,
        );
    }
}

/// Exposing the mines changes neither the shape of a board nor its mines, and
/// keeps its invariant.
pub proof fn lemma_loss_keeps_invariant(board: BoardView)
    requires
        board.inv(),
    ensures
        board.with_mines_exposed().same_mines(board),
        board.with_mines_exposed().inv(),
{
    let after = board.with_mines_exposed();
    assert(after.same_mines(board));
    assert forall|idx: int| after.has(idx) implies #[trigger] after.cell_consistent(idx) by {
        assert(board.cell_consistent(idx));
        lemma_mines_around_same_mines(after, board, idx);
    }
}

/// A flood from an unmined cell changes neither the shape of a board nor its
/// mines, exposes no mine, and keeps the invariant.
pub proof fn lemma_flood_keeps_invariant(board: BoardView, from: int)
    requires
        board.inv(),
        board.has(from),
        !board.cells[from].mined,
    ensures
        board.with_flood_exposed(from).same_mines(board),
        board.with_flood_exposed(from).inv(),
        board.with_flood_exposed(from).game_over() == board.game_over(),
{
    let after = board.with_flood_exposed(from);
    assert(after.same_mines(board));
    assert forall|idx: int| after.has(idx) implies #[trigger] after.cell_consistent(idx) by {
        assert(board.cell_consistent(idx));
        lemma_mines_around_same_mines(after, board, idx);
        if board.floods_to(from, idx) {
            lemma_flood_reaches_no_mine(board, from, idx);
            lemma_mines_around_bound(board, idx);
        }
    }
    if board.game_over() {
        let idx = choose|idx: int|
            board.has(idx) && #[trigger] board.cells[idx].exposed && board.cells[idx].mined;
        assert(after.has(idx) && after.cells[idx].exposed && after.cells[idx].mined);
    }
    if after.game_over() {
        let idx = choose|idx: int|
            after.has(idx) && #[trigger] after.cells[idx].exposed && after.cells[idx].mined;
        if board.floods_to(from, idx) {
            lemma_flood_reaches_no_mine(board, from, idx);
        }
        assert(board.has(idx) && board.cells[idx].exposed && board.cells[idx].mined);
    }
}

/// A pick changes neither the shape of a board nor its mines, and keeps the
/// invariant.
pub proof fn lemma_reveal_keeps_invariant(board: BoardView, pos: int)
    requires
        board.inv(),
        board.has(pos),
    ensures
        board.revealed(pos).same_mines(board),
        board.revealed(pos).inv(),
{
    if !board.hidden(pos) {
    } else if board.cells[pos].mined {
        lemma_loss_keeps_invariant(board);
    } else {
        lemma_flood_keeps_invariant(board, pos);
    }
}

/// A pick on a cell that is exposed or flagged leaves the board as it is.
pub proof fn lemma_pick_on_settled_cell(board: BoardView, pos: int)
    requires
        board.cells[pos].exposed || board.cells[pos].flagged,
    ensures
        board.revealed(pos) == board,
{
}

/// Exposing the mines a second time changes nothing.
pub proof fn lemma_loss_is_idempotent(board: BoardView)
    ensures
        board.with_mines_exposed().with_mines_exposed() == board.with_mines_exposed(),
{
    assert(board.with_mines_exposed().with_mines_exposed().cells
        =~= board.with_mines_exposed().cells);
}

/// A pick exposes cells and sets their counts; it never hides a cell, and it
/// changes neither a flag nor a mine.
pub proof fn lemma_pick_only_exposes(board: BoardView, pos: int, idx: int)
    requires
        board.has(idx),
    ensures
        board.revealed(pos).cells[idx].mined == board.cells[idx].mined,
        board.revealed(pos).cells[idx].flagged == board.cells[idx].flagged,
        board.cells[idx].exposed ==> board.revealed(pos).cells[idx] == board.cells[idx],
{
    if board.hidden(pos) && !board.cells[pos].mined && board.floods_to(pos, idx) {
        let path = choose|path: Seq<int>| #[trigger]
            board.flood_path(path) && path.first() == pos && path.last() == idx;
        assert(board.hidden(path[path.len() - 1]));
    }
}

/// A pick on a hidden cell exposes it.
pub proof fn lemma_pick_exposes_the_cell(board: BoardView, pos: int)
    requires
        board.well_shaped(),
        board.has(pos),
        board.hidden(pos),
    ensures
        board.revealed(pos).cells[pos].exposed,
        board.revealed(pos).game_over() == (board.game_over() || board.cells[pos].mined),
{
    let after = board.revealed(pos);
    if board.cells[pos].mined {
        assert(after.has(pos) && after.cells[pos].exposed && after.cells[pos].mined);
    } else {
        lemma_flood_reaches_start(board, pos);
        if board.game_over() {
            let idx = choose|idx: int|
                board.has(idx) && #[trigger] board.cells[idx].exposed && board.cells[idx].mined;
            lemma_pick_only_exposes(board, pos, idx);
            assert(after.has(idx) && after.cells[idx].exposed && after.cells[idx].mined);
        }
        if after.game_over() {
            let idx = choose|idx: int|
                after.has(idx) && #[trigger] after.cells[idx].exposed && after.cells[idx].mined;
            if board.floods_to(pos, idx) {
                lemma_flood_reaches_no_mine(board, pos, idx);
            }
            assert(board.has(idx) && board.cells[idx].exposed && board.cells[idx].mined);
        }
    }
}

/// After a flood, every neighbour of a cell that the flood exposed and found
/// free of mines around it is exposed or flagged.
pub proof fn lemma_flood_is_closed(board: BoardView, from: int, via: int, to: int)
    requires
        board.has(from),
        board.hidden(from),
        !board.cells[from].mined,
        board.has(via),
        !board.cells[via].exposed,
        board.revealed(from).cells[via].exposed,
        board.mines_around(via) == 0,
        adjacent(board.width, board.height, via, to),
        board.has(to),
    ensures
        board.revealed(from).cells[to].exposed || board.revealed(from).cells[to].flagged,
{
    if board.hidden(to) {
        lemma_flood_extends(board, from, via, to);
    } else {
        lemma_pick_only_exposes(board, from, to);
    }
}

/// A flag bars the flood: where a flagged cell lies on every path from
/// `from` to `to` that runs over adjacent cells, each but the last with no
/// mine around it, a pick on `from` does not expose `to`. The one pick left
/// out is the pick on a hidden mine, which exposes every mine, `to` among
/// them where it is one.
pub proof fn lemma_flag_bars_flood(board: BoardView, from: int, flag: int, to: int)
    requires
        board.has(from),
        board.has(to),
        board.has(flag),
        board.cells[flag].flagged,
        forall|path: Seq<int>| #[trigger]
            board.zero_path(path) && path.first() == from && path.last() == to ==> path.contains(
                flag,
            ),
        !(board.hidden(from) && board.cells[from].mined && board.cells[to].mined
            && !board.cells[to].exposed),
    ensures
        board.revealed(from).cells[to].exposed == board.cells[to].exposed,
{
    if board.hidden(from) && !board.cells[from].mined && board.floods_to(from, to) {
        let path = choose|path: Seq<int>| #[trigger]
            board.flood_path(path) && path.first() == from && path.last() == to;
        assert(board.zero_path(path));
        let at = choose|at: int| 0 <= at < path.len() && path[at] == flag;
        assert(board.hidden(path[at]));
    }
}

/// How far apart two cells are: the columns and the rows between them.
spec fn apart(width: int, a: int, b: int) -> int {
    let across = column(width, a) - column(width, b);
    let down = row(width, a) - row(width, b);
    (if across < 0 {
        -across
    } else {
        across
    }) + (if down < 0 {
        -down
    } else {
        down
    })
}

/// On a board all of whose cells are hidden and have no mine around them, a
/// flood from any cell reaches every cell.
proof fn lemma_open_board_floods(board: BoardView, from: int, to: int)
    requires
        board.well_shaped(),
        board.has(from),
        board.has(to),
        forall|idx: int| board.has(idx) ==> #[trigger] board.hidden(idx) && board.mines_around(idx) == 0,
    ensures
        board.floods_to(from, to),
    decreases apart(board.width, from, to),
{
    let width = board.width;
    let height = board.height;
    if to == from {
        lemma_flood_reaches_start(board, from);
    } else {
        lemma_coordinates_of_index(width, height, from);
        lemma_coordinates_of_index(width, height, to);
        let x = column(width, to);
        let y = row(width, to);
        let near_x = if x > column(width, from) {
            x - 1
        } else if x < column(width, from) {
            x + 1
        } else {
            x
        };
        let near_y = if y > row(width, from) {
            y - 1
        } else if y < row(width, from) {
            y + 1
        } else {
            y
        };
        if near_x == x && near_y == y {
            lemma_index_is_unique(width, height, from, to);
        }
        lemma_index_of_coordinates(width, height, near_x, near_y);
        let via = index_at(width, near_x, near_y);
        assert(board.has(via));
        assert(board.hidden(via) && board.mines_around(via) == 0);
        assert(board.hidden(to));
        lemma_open_board_floods(board, from, via);
        lemma_flood_extends(board, from, via, to);
    }
}

/// On an untouched board without a mine, a pick on any cell exposes every
/// cell, each with a count of zero.
pub proof fn lemma_pick_clears_mine_free_board(board: BoardView, pos: int)
    requires
        board.well_shaped(),
        board.untouched(),
        forall|idx: int| board.has(idx) ==> !(#[trigger] board.cells[idx]).mined,
        board.has(pos),
    ensures
        forall|idx: int|
            board.has(idx) ==> #[trigger] board.revealed(pos).cells[idx] == (Cell {
                mined: false,
                exposed: true,
                flagged: false,
                mine_count: 0,
            }),
        !board.revealed(pos).game_over(),
{
    assert forall|idx: int| board.has(idx) implies #[trigger] board.hidden(idx)
        && board.mines_around(idx) == 0 by {
        assert(board.cells[idx] == Cell::fresh(board.cells[idx].mined));
        lemma_count_mined_none(board.cells, neighbour_seq(board.width, board.height, idx));
    }
    assert forall|idx: int| board.has(idx) implies #[trigger] board.revealed(pos).cells[idx]
        == (Cell { mined: false, exposed: true, flagged: false, mine_count: 0 }) by {
        lemma_open_board_floods(board, pos, idx);
        assert(board.cells[idx] == Cell::fresh(board.cells[idx].mined));
        assert(board.mines_around(idx) == 0);
    }
    assert(board.cells[pos] == Cell::fresh(board.cells[pos].mined));
}

/// On an untouched board with a mine in every cell, a pick on any cell
/// exposes every cell.
pub proof fn lemma_pick_on_full_board(board: BoardView, pos: int)
    requires
        board.untouched(),
        forall|idx: int| board.has(idx) ==> (#[trigger] board.cells[idx]).mined,
        board.has(pos),
    ensures
        forall|idx: int| board.has(idx) ==> (#[trigger] board.revealed(pos).cells[idx]).exposed,
        board.revealed(pos).game_over(),
{
    assert(board.cells[pos] == Cell::fresh(board.cells[pos].mined));
    assert(board.cells[pos].mined);
    let after = board.revealed(pos);
    assert(after.has(pos) && after.cells[pos].exposed && after.cells[pos].mined);
}

/// The number of cells that are not exposed.
pub open spec fn count_unexposed(cells: Seq<Cell>) -> nat
    decreases cells.len(),
{
    if cells.len() == 0 {
        0
    } else {
        count_unexposed(cells.drop_last()) + if cells.last().exposed {
            0nat
        } else {
            1nat
        }
    }
}

/// Exposing one cell leaves one unexposed cell fewer.
proof fn lemma_exposing_lowers_count(cells: Seq<Cell>, idx: int, cell: Cell)
    requires
        0 <= idx < cells.len(),
        !cells[idx].exposed,
        cell.exposed,
    ensures
        count_unexposed(cells.update(idx, cell)) + 1 == count_unexposed(cells),
    decreases cells.len(),
{
    let updated = cells.update(idx, cell);
    if idx == cells.len() - 1 {
        assert(updated.drop_last() =~= cells.drop_last());
    } else {
        assert(updated.drop_last() =~= cells.drop_last().update(idx, cell));
        lemma_exposing_lowers_count(cells.drop_last(), idx, cell);
    }
}

/// Whether the flood has exposed the cell at `idx` since it started.
spec fn newly_exposed(start: BoardView, now: BoardView, idx: int) -> bool {
    now.cells[idx].exposed && !start.cells[idx].exposed
}

/// What holds while a flood from `from` is under way, of the board `start`
/// that it began on, the board `now` and the cells still `pending`:
/// every cell is as it was or has been exposed by the flood; a pending cell
/// that was hidden is one that the flood reaches; and each hidden neighbour
/// of a cell that the flood exposed and found free of mines around it is
/// exposed by now or pending, as is the cell that the flood began at.
spec fn flooding(start: BoardView, from: int, now: BoardView, pending: Seq<int>) -> bool {
    &&& now.width == start.width
    &&& now.height == start.height
    &&& now.cells.len() == start.cells.len()
    &&& forall|idx: int|
        start.has(idx) ==> #[trigger] now.cells[idx] == start.cells[idx] || (start.floods_to(
            from,
            idx,
        ) && now.cells[idx] == start.cell_after_flood(idx))
    &&& forall|at: int|
        0 <= at < pending.len() ==> start.has(#[trigger] pending[at]) && (start.hidden(pending[at])
            ==> start.floods_to(from, pending[at]))
    &&& forall|via: int, to: int| #[trigger]
        adjacent(start.width, start.height, via, to) && newly_exposed(start, now, via)
            && start.mines_around(via) == 0 && start.hidden(to) ==> now.cells[to].exposed
            || pending.contains(to)
    &&& now.cells[from].exposed || pending.contains(from)
}

/// A flood begins with the cell that was picked pending.
proof fn lemma_flood_begins(start: BoardView, from: int)
    requires
        start.has(from),
        start.hidden(from),
    ensures
        flooding(start, from, start, seq![from]),
{
    lemma_flood_reaches_start(start, from);
    assert(seq![from][0] == from);
}

/// A pending cell that is exposed or flagged is dropped.
proof fn lemma_flood_skips(start: BoardView, from: int, now: BoardView, pending: Seq<int>)
    requires
        start.has(from),
        start.hidden(from),
        flooding(start, from, now, pending),
        0 < pending.len(),
        !now.hidden(pending.last()),
    ensures
        flooding(start, from, now, pending.drop_last()),
{
    let rest = pending.drop_last();
    let dropped = pending.last();
    assert(start.has(dropped));
    assert(now.cells[dropped] == start.cells[dropped] || now.cells[dropped].exposed);
    assert forall|other: int| pending.contains(other) && other != dropped implies rest.contains(
        other,
    ) by {
        let at = choose|at: int| 0 <= at < pending.len() && pending[at] == other;
        assert(rest[at] == other);
    }
    assert forall|at: int| 0 <= at < rest.len() implies start.has(#[trigger] rest[at])
        && (start.hidden(rest[at]) ==> start.floods_to(from, rest[at])) by {
        assert(rest[at] == pending[at]);
    }
}

/// A pending cell that is hidden is one that the flood reaches; once it is
/// exposed, and its neighbours are pending where it has no mine around it,
/// the flood goes on with one unexposed cell fewer.
proof fn lemma_flood_exposes(start: BoardView, from: int, now: BoardView, pending: Seq<int>)
    requires
        start.well_shaped(),
        start.has(from),
        start.hidden(from),
        flooding(start, from, now, pending),
        0 < pending.len(),
        now.hidden(pending.last()),
    ensures
        start.floods_to(from, pending.last()),
        now.cells[pending.last()] == start.cells[pending.last()],
        now.same_mines(start),
        flooding(
            start,
            from,
            now.with_cell(pending.last(), start.cell_after_flood(pending.last())),
            if start.mines_around(pending.last()) == 0 {
                pending.drop_last() + neighbour_seq(start.width, start.height, pending.last())
            } else {
                pending.drop_last()
            },
        ),
        count_unexposed(
            now.with_cell(pending.last(), start.cell_after_flood(pending.last())).cells,
        ) < count_unexposed(now.cells),
{
    broadcast use vstd::seq_lib::lemma_seq_concat_contains_all_elements;

    let rest = pending.drop_last();
    let picked = pending.last();
    let around = neighbour_seq(start.width, start.height, picked);
    let next = now.with_cell(picked, start.cell_after_flood(picked));
    let queue = if start.mines_around(picked) == 0 {
        rest + around
    } else {
        rest
    };
    assert(start.has(picked));
    assert(now.cells[picked] == start.cells[picked] || now.cells[picked].exposed);
    assert(start.hidden(picked));
    assert(now.same_mines(start)) by {
        assert forall|idx: int| now.has(idx) implies #[trigger] now.cells[idx].mined
            == start.cells[idx].mined by {
            assert(now.cells[idx] == start.cells[idx] || now.cells[idx] == start.cell_after_flood(
                idx,
            ));
        }
    }
    lemma_exposing_lowers_count(now.cells, picked, start.cell_after_flood(picked));
    assert forall|other: int| pending.contains(other) && other != picked implies queue.contains(
        other,
    ) by {
        let at = choose|at: int| 0 <= at < pending.len() && pending[at] == other;
        assert(rest[at] == other);
    }
    assert forall|idx: int| start.has(idx) implies #[trigger] next.cells[idx] == start.cells[idx]
        || (start.floods_to(from, idx) && next.cells[idx] == start.cell_after_flood(idx)) by {
        if idx != picked {
            assert(next.cells[idx] == now.cells[idx]);
            assert(now.cells[idx] == start.cells[idx] || (start.floods_to(from, idx)
                && now.cells[idx] == start.cell_after_flood(idx)));
        }
    }
    assert forall|at: int| 0 <= at < queue.len() implies start.has(#[trigger] queue[at])
        && (start.hidden(queue[at]) ==> start.floods_to(from, queue[at])) by {
        if at < rest.len() {
            assert(queue[at] == pending[at]);
        } else {
            let to = around[at - rest.len()];
            assert(queue[at] == to);
            assert(around.contains(to));
            lemma_neighbours_are_the_adjacent_cells(start.width, start.height, picked, to);
            if start.hidden(to) {
                lemma_flood_extends(start, from, picked, to);
            }
        }
    }
    assert forall|via: int, to: int| #[trigger]
        adjacent(start.width, start.height, via, to) && newly_exposed(start, next, via)
            && start.mines_around(via) == 0 && start.hidden(to) implies next.cells[to].exposed
        || queue.contains(to) by {
        if via == picked {
            lemma_neighbours_are_the_adjacent_cells(start.width, start.height, picked, to);
        } else {
            assert(next.cells[via] == now.cells[via]);
            assert(newly_exposed(start, now, via));
            if to != picked {
                assert(next.cells[to] == now.cells[to]);
            }
        }
    }
    if from != picked {
        assert(next.cells[from] == now.cells[from]);
    }
}

/// Once nothing is pending, every cell on a path of the flood is exposed.
proof fn lemma_flood_covers_path(
    start: BoardView,
    from: int,
    now: BoardView,
    path: Seq<int>,
    upto: int,
)
    requires
        flooding(start, from, now, Seq::empty()),
        start.flood_path(path),
        path.first() == from,
        0 <= upto < path.len(),
    ensures
        now.cells[path[upto]].exposed,
    decreases upto,
{
    if upto > 0 {
        lemma_flood_covers_path(start, from, now, path, upto - 1);
        assert(start.flood_step(path, upto - 1));
        assert(start.hidden(path[upto - 1]));
        assert(start.hidden(path[upto]));
        assert(newly_exposed(start, now, path[upto - 1]));
    }
}

/// Once nothing is pending, the flood has exposed the cells that it reaches
/// and no others.
proof fn lemma_flood_completes(start: BoardView, from: int, now: BoardView)
    requires
        flooding(start, from, now, Seq::empty()),
    ensures
        now == start.with_flood_exposed(from),
{
    let after = start.with_flood_exposed(from);
    assert forall|idx: int| 0 <= idx < now.cells.len() implies now.cells[idx]
        == after.cells[idx] by {
        assert(start.has(idx));
        assert(now.cells[idx] == start.cells[idx] || (start.floods_to(from, idx) && now.cells[idx]
            == start.cell_after_flood(idx)));
        if start.floods_to(from, idx) {
            let path = choose|path: Seq<int>| #[trigger]
                start.flood_path(path) && path.first() == from && path.last() == idx;
            lemma_flood_covers_path(start, from, now, path, path.len() - 1);
            assert(start.hidden(path[path.len() - 1]));
        }
    }
    assert(now.cells =~= after.cells);
}

/// Exposes every mined cell, and changes nothing else.
pub fn expose_mines(board: &mut Board)
    ensures
        final(board)@ == old(board)@.with_mines_exposed(),
        old(board).wf() ==> final(board).wf(),
{
    let ghost start = board@;
    let len = board.len();
    let mut idx: usize = 0;
    while idx < len
        invariant
            len == start.cells.len(),
            idx <= len,
            board@.width == start.width,
            board@.height == start.height,
            board@.cells.len() == len,
            forall|at: int| 0 <= at < idx ==> #[trigger] board@.cells[at] == start.cell_after_loss(at),
            forall|at: int| idx <= at < len ==> #[trigger] board@.cells[at] == start.cells[at],
        decreases len - idx,
    {
        let cell = board.cell(idx);
        if cell.mined {
            board.set_cell(
                idx,
                Cell {
                    mined: cell.mined,
                    exposed: true,
                    flagged: cell.flagged,
                    mine_count: cell.mine_count,
                },
            );
        }
        idx += 1;
    }
    proof {
        assert(board@.cells =~= start.with_mines_exposed().cells);
        if start.inv() {
            lemma_loss_keeps_invariant(start);
        }
    }
}

/// Acts on a pick on the cell at `pos`: nothing where the cell is exposed or
/// flagged; the loss, which exposes every mine, where it is a hidden mine;
/// else the flood that starts at it.
pub fn expose_cells(pos: usize, board: &mut Board)
    requires
        old(board).wf(),
        old(board)@.has(pos as int),
    ensures
        final(board).wf(),
        final(board)@ == old(board)@.revealed(pos as int),
        final(board)@.same_mines(old(board)@),
        !old(board)@.hidden(pos as int) ==> final(board)@ == old(board)@,
{
    let ghost start = board@;
    proof {
        lemma_reveal_keeps_invariant(start, pos as int);
    }
    let picked = board.cell(pos);
    if picked.exposed || picked.flagged {
        return ;
    }
    if picked.mined {
        expose_mines(board);
        return ;
    }
    let mut pending: Vec<usize> = Vec::new();
    pending.push(pos);
    proof {
        lemma_flood_begins(start, pos as int);
        assert(as_ints(pending@) =~= seq![pos as int]);
    }
    while pending.len() > 0
        invariant
            start.inv(),
            start.has(pos as int),
            start.hidden(pos as int),
            flooding(start, pos as int, board@, as_ints(pending@)),
        decreases count_unexposed(board@.cells), pending.len(),
    {
        let ghost now = board@;
        let ghost queue = as_ints(pending@);
        let at = pending.pop().unwrap();
        assert(as_ints(pending@) =~= queue.drop_last());
        assert(at as int == queue.last());
        assert(start.has(queue[queue.len() - 1]));
        let cell = board.cell(at);
        if !cell.exposed && !cell.flagged {
            let width = board.width();
            let height = board.height();
            proof {
                board.lemma_len_fits();
                lemma_flood_exposes(start, pos as int, now, queue);
                lemma_mines_around_same_mines(now, start, at as int);
                lemma_mines_around_bound(start, at as int);
            }
            let mut around = neighbours(at, width, height);
            assert forall|place: int| 0 <= place < around.len() implies board@.has(
                #[trigger] around[place] as int,
            ) by {
                let other = as_ints(around@)[place];
                assert(as_ints(around@).contains(other));
                lemma_neighbours_are_the_adjacent_cells(start.width, start.height, at as int, other);
            }
            let count = get_count(board, &around);
            board.set_cell(
                at,
                Cell { mined: cell.mined, exposed: true, flagged: cell.flagged, mine_count: count },
            );
            if count == 0 {
                let ghost rest = pending@;
                let ghost added = around@;
                pending.append(&mut around);
                assert(as_ints(pending@) =~= as_ints(rest) + as_ints(added));
            }
        } else {
            proof {
                lemma_flood_skips(start, pos as int, now, queue);
            }
        }
    }
    proof {
        assert(as_ints(pending@) =~= Seq::<int>::empty());
        lemma_flood_completes(start, pos as int, board@);
    }
}

} // verus!
