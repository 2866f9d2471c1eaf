//! The game controller: it owns the board and applies the player's intents
//! to it.

use vstd::prelude::*;
use crate::board::game_over;
use crate::board::lemma_mines_around_bound;
use crate::board::lemma_mines_around_same_mines;
use crate::board::Board;
use crate::board::BoardView;
use crate::cell::Cell;
use crate::flood::expose_cells;
use crate::flood::lemma_reveal_keeps_invariant;
use crate::generator::generate_board;
use crate::generator::sample_board;
use crate::generator::MINE_CHANCE_DENOMINATOR;
use crate::generator::MINE_CHANCE_NUMERATOR;
use crate::geometry::HEIGHT;
use crate::geometry::WIDTH;

verus! {

/// What the player can ask for: a new game, a pick that reveals a cell, or
/// a pick that sets or clears the flag of a cell.
#[derive(Clone, Copy, Debug, PartialEq, Eq, Structural)]
pub enum Msg {
    Reset,
    LeftPick(usize),
    RightPick(usize),
}

impl BoardView {
    /// The board with the flag of the cell at `idx` set where it was clear,
    /// and cleared where it was set.
    pub open spec fn with_flag_toggled(self, idx: int) -> BoardView {
        let cell = self.cells[idx];
        self.with_cell(
            idx,
            Cell {
                mined: cell.mined,
                exposed: cell.exposed,
                flagged: !cell.flagged,
                mine_count: cell.mine_count,
            },
        )
    }

    /// The board after a revealing pick on `idx`: the pick reveals the cell
    /// unless the game is lost.
    pub open spec fn after_left_pick(self, idx: int) -> BoardView {
        if self.game_over() {
            self
        } else {
            self.revealed(idx)
        }
    }

    /// Whether a flagging pick on `idx` acts on the board: the game is not
    /// lost and the cell is not exposed.
    pub open spec fn right_pick_acts(self, idx: int) -> bool {
        !self.game_over() && !self.cells[idx].exposed
    }

    /// The board after a flagging pick on `idx`: the pick sets or clears the
    /// flag where it acts.
    pub open spec fn after_right_pick(self, idx: int) -> BoardView {
        if self.right_pick_acts(idx) {
            self.with_flag_toggled(idx)
        } else {
            self
        }
    }

    /// Whether `msg` names a cell of the board, where it names a cell at all.
    pub open spec fn admits(self, msg: Msg) -> bool {
        match msg {
            Msg::Reset => true,
            Msg::LeftPick(idx) => self.has(idx as int),
            Msg::RightPick(idx) => self.has(idx as int),
        }
    }
}

/// Setting or clearing a flag changes neither the mines nor whether the
/// game is lost.
pub proof fn lemma_flag_keeps_mines(board: BoardView, idx: int)
    requires
        board.has(idx),
    ensures
        board.with_flag_toggled(idx).same_mines(board),
        board.with_flag_toggled(idx).game_over() == board.game_over(),
{
    let after = board.with_flag_toggled(idx);
    assert(after.same_mines(board));
    if board.game_over() {
        let at = choose|at: int|
            board.has(at) && #[trigger] board.cells[at].exposed && board.cells[at].mined;
        assert(after.has(at) && after.cells[at].exposed && after.cells[at].mined);
    }
    if after.game_over() {
        let at = choose|at: int|
            after.has(at) && #[trigger] after.cells[at].exposed && after.cells[at].mined;
        assert(board.has(at) && board.cells[at].exposed && board.cells[at].mined);
    }
}

/// Setting or clearing the flag of an unexposed cell keeps the invariant.
pub proof fn lemma_flag_keeps_invariant(board: BoardView, idx: int)
    requires
        board.inv(),
        board.has(idx),
        !board.cells[idx].exposed,
    ensures
        board.with_flag_toggled(idx).inv(),
{
    let after = board.with_flag_toggled(idx);
    lemma_flag_keeps_mines(board, idx);
    assert forall|at: int| after.has(at) implies #[trigger] after.cell_consistent(at) by {
        assert(board.cell_consistent(at));
        lemma_mines_around_same_mines(after, board, at);
    }
}

/// A pick of either kind keeps the invariant of the board, its shape and its
/// mines.
pub proof fn lemma_picks_keep_invariant(board: BoardView, idx: int)
    requires
        board.inv(),
        board.has(idx),
    ensures
        board.after_left_pick(idx).inv(),
        board.after_left_pick(idx).same_mines(board),
        board.after_right_pick(idx).inv(),
        board.after_right_pick(idx).same_mines(board),
{
    lemma_reveal_keeps_invariant(board, idx);
    lemma_flag_keeps_mines(board, idx);
    if !board.cells[idx].exposed {
        lemma_flag_keeps_invariant(board, idx);
    }
}

/// While the game is not lost, no cell is both exposed and flagged. After
/// the loss a flagged mine is: the loss exposes it and leaves its flag.
pub proof fn lemma_no_cell_exposed_and_flagged(board: BoardView, idx: int)
    requires
        board.inv(),
        !board.game_over(),
        board.has(idx),
    ensures
        !(board.cells[idx].exposed && board.cells[idx].flagged),
{
    assert(board.cell_consistent(idx));
}

/// Every count on a board lies between zero and eight.
pub proof fn lemma_counts_are_small(board: BoardView, idx: int)
    requires
        board.inv(),
        board.has(idx),
    ensures
        0 <= board.cells[idx].mine_count <= 8,
{
    assert(board.cell_consistent(idx));
    lemma_mines_around_bound(board, idx);
}

/// Two flagging picks in a row on an unexposed cell leave the board as it was.
pub proof fn lemma_right_pick_twice(board: BoardView, idx: int)
    requires
        board.has(idx),
        !board.cells[idx].exposed,
    ensures
        board.after_right_pick(idx).after_right_pick(idx) == board,
{
    lemma_flag_keeps_mines(board, idx);
    if !board.game_over() {
        assert(board.with_flag_toggled(idx).with_flag_toggled(idx).cells =~= board.cells);
    }
}

/// A flagging pick on an exposed cell leaves the board as it was.
pub proof fn lemma_right_pick_on_exposed_cell(board: BoardView, idx: int)
    requires
        board.cells[idx].exposed,
    ensures
        board.after_right_pick(idx) == board,
        !board.right_pick_acts(idx),
{
}

/// Once the game is lost, a pick of either kind leaves the board as it was,
/// so that the game stays lost.
pub proof fn lemma_picks_after_loss(board: BoardView, idx: int)
    requires
        board.game_over(),
    ensures
        board.after_left_pick(idx) == board,
        board.after_right_pick(idx) == board,
        !board.right_pick_acts(idx),
{
}

/// An untouched board is not lost.
pub proof fn lemma_untouched_is_not_lost(board: BoardView)
    requires
        board.untouched(),
    ensures
        !board.game_over(),
{
    if board.game_over() {
        let at = choose|at: int|
            board.has(at) && #[trigger] board.cells[at].exposed && board.cells[at].mined;
        assert(board.cells[at] == Cell::fresh(board.cells[at].mined));
    }
}

/// The state of a game: its board.
#[derive(Clone, Debug, PartialEq, Eq)]
pub struct Model {
    board: Board,
}

impl View for Model {
    type V = BoardView;

    closed spec fn view(&self) -> BoardView {
        self.board@
    }
}

impl Model {
    /// The board of the game satisfies its invariant.
    pub open spec fn wf(&self) -> bool {
        self@.inv()
    }

    /// A new game on a generated board of the standard shape.
    pub fn create() -> (model: Model)
        ensures
            model.wf(),
            model@.width == WIDTH,
            model@.height == HEIGHT,
            model@.cells.len() == WIDTH * HEIGHT,
            model@.untouched(),
    {
        Model { board: generate_board() }
    }

    /// A game that goes on from the given board.
    pub fn with_board(board: Board) -> (model: Model)
        ensures
            model@ == board@,
            model.wf() == board.wf(),
    {
        Model { board }
    }

    /// The board of the game.
    pub fn board(&self) -> (board: &Board)
        ensures
            board@ == self@,
    {
        &self.board
    }

    /// Applies an intent to the game, and says whether the board is to be
    /// drawn again.
    ///
    /// `Reset` puts a newly generated board of the same shape in the place
    /// of the board. While the game is lost, a pick does nothing. Else
    /// `LeftPick` reveals the cell, and `RightPick` sets or clears the flag of
    /// a cell that is not exposed. A pick must name a cell of the board
    /// unless the game is lost.
    pub fn update(&mut self, msg: Msg) -> (should_render: bool)
        requires
            old(self).wf(),
            !old(self)@.game_over() ==> old(self)@.admits(msg),
        ensures
            final(self).wf(),
            final(self)@.width == old(self)@.width,
            final(self)@.height == old(self)@.height,
            final(self)@.cells.len() == old(self)@.cells.len(),
            match msg {
                Msg::Reset => should_render && final(self)@.untouched() && !final(self)@.game_over(),
                Msg::LeftPick(idx) => should_render == !old(self)@.game_over() && final(self)@
                    == old(self)@.after_left_pick(idx as int),
                Msg::RightPick(idx) => should_render == old(self)@.right_pick_acts(idx as int)
                    && final(self)@ == old(self)@.after_right_pick(idx as int),
            },
            !(msg is Reset) ==> final(self)@.same_mines(old(self)@),
    {
        match msg {
            Msg::Reset => {
                proof {
                    self.board.lemma_len_fits();
                }
                self.board = sample_board(
                    self.board.width(),
                    self.board.height(),
                    MINE_CHANCE_NUMERATOR,
                    MINE_CHANCE_DENOMINATOR,
                );
                true
            },
            Msg::LeftPick(idx) => {
                if game_over(&self.board) {
                    false
                } else {
                    proof {
                        lemma_reveal_keeps_invariant(self.board@, idx as int);
                    }
                    expose_cells(idx, &mut self.board);
                    true
                }
            },
            Msg::RightPick(idx) => {
                if game_over(&self.board) {
                    false
                } else {
                    let cell = self.board.cell(idx);
                    if cell.exposed {
                        false
                    } else {
                        proof {
                            lemma_flag_keeps_invariant(self.board@, idx as int);
                            lemma_flag_keeps_mines(self.board@, idx as int);
                        }
                        self.board.set_cell(
                            idx,
                            Cell {
                                mined: cell.mined,
                                exposed: cell.exposed,
                                flagged: !cell.flagged,
                                mine_count: cell.mine_count,
                            },
                        );
                        true
                    }
                }
            },
        }
    }
}

} // verus!
