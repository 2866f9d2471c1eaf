use minesweeper::board::game_over;
use minesweeper::board::Board;
use minesweeper::cell::Cell;
use minesweeper::flood::expose_cells;
use minesweeper::game::Model;
use minesweeper::game::Msg;
use minesweeper::geometry::neighbours;
use minesweeper::geometry::HEIGHT;
use minesweeper::geometry::WIDTH;

fn laid_out(width: usize, height: usize, mined: &[usize]) -> Board {
    let mut mines = vec![false; width * height];
    for idx in mined {
        mines[*idx] = true;
    }
    Board::from_mines(width, height, &mines).unwrap()
}

fn flagged(board: Board, flags: &[usize]) -> Board {
    let mut model = Model::with_board(board);
    for idx in flags {
        assert!(model.update(Msg::RightPick(*idx)));
    }
    model.board().clone()
}

fn exposed_cells(board: &Board) -> Vec<usize> {
    (0..board.len()).filter(|idx| board.cell(*idx).exposed).collect()
}

fn mines_around(board: &Board, idx: usize) -> usize {
    neighbours(idx, board.width(), board.height())
        .into_iter()
        .filter(|other| board.cell(*other).mined)
        .count()
}

fn holds_invariant(board: &Board) -> bool {
    board.len() == board.width() * board.height()
        && (0..board.len()).all(|idx| {
            let cell = board.cell(idx);
            let count = if cell.exposed && !cell.mined { mines_around(board, idx) } else { 0 };
            cell.mine_count == count && (!(cell.exposed && cell.flagged) || cell.mined)
        })
}

#[test]
fn flood_to_full_board() {
    let mut board = laid_out(3, 3, &[]);
    expose_cells(4, &mut board);
    for idx in 0..9 {
        assert_eq!(
            board.cell(idx),
            Cell { mined: false, exposed: true, flagged: false, mine_count: 0 }
        );
    }
    assert!(!game_over(&board));
}

#[test]
fn bounded_flood() {
    let mut board = laid_out(3, 3, &[0]);
    expose_cells(8, &mut board);
    assert_eq!(board.cell(0), Cell::new(true));
    for idx in [1, 3, 4] {
        assert_eq!(
            board.cell(idx),
            Cell { mined: false, exposed: true, flagged: false, mine_count: 1 }
        );
    }
    for idx in [2, 5, 6, 7, 8] {
        assert_eq!(
            board.cell(idx),
            Cell { mined: false, exposed: true, flagged: false, mine_count: 0 }
        );
    }
    assert!(!game_over(&board));
}

#[test]
fn flag_blocks_flood() {
    let mut board = flagged(laid_out(3, 3, &[]), &[4]);
    expose_cells(0, &mut board);
    for idx in [0, 1, 2, 3, 5, 6, 7, 8] {
        assert_eq!(
            board.cell(idx),
            Cell { mined: false, exposed: true, flagged: false, mine_count: 0 }
        );
    }
    assert_eq!(
        board.cell(4),
        Cell { mined: false, exposed: false, flagged: true, mine_count: 0 }
    );
}

#[test]
fn pick_on_a_cell_next_to_mines_exposes_that_cell_alone() {
    let mut board = laid_out(3, 3, &[0, 8]);
    expose_cells(4, &mut board);
    assert_eq!(exposed_cells(&board), vec![4]);
    assert_eq!(board.cell(4).mine_count, 2);
    assert!(!game_over(&board));
}

#[test]
fn pick_on_a_mine_exposes_every_mine_and_nothing_else() {
    let mut board = laid_out(3, 3, &[0, 8]);
    expose_cells(0, &mut board);
    assert_eq!(exposed_cells(&board), vec![0, 8]);
    for idx in 0..9 {
        assert_eq!(board.cell(idx).mine_count, 0);
        assert!(!board.cell(idx).flagged);
    }
    assert!(game_over(&board));
}

#[test]
fn pick_on_a_mine_leaves_flags_alone() {
    let mut board = flagged(laid_out(3, 3, &[0, 8]), &[8, 4]);
    expose_cells(0, &mut board);
    assert_eq!(
        board.cell(8),
        Cell { mined: true, exposed: true, flagged: true, mine_count: 0 }
    );
    assert_eq!(
        board.cell(4),
        Cell { mined: false, exposed: false, flagged: true, mine_count: 0 }
    );
    assert!(holds_invariant(&board));
}

#[test]
fn pick_on_an_exposed_cell_changes_nothing() {
    let mut board = laid_out(3, 3, &[0]);
    expose_cells(4, &mut board);
    let before = board.clone();
    expose_cells(4, &mut board);
    assert_eq!(board, before);
}

#[test]
fn pick_on_a_flagged_cell_changes_nothing() {
    let mut board = flagged(laid_out(3, 3, &[0]), &[0, 8]);
    let before = board.clone();
    expose_cells(0, &mut board);
    assert_eq!(board, before);
    expose_cells(8, &mut board);
    assert_eq!(board, before);
}

#[test]
fn flood_does_not_pass_a_wall_of_flags() {
    // Five columns, the middle one flagged from top to bottom.
    let mut board = flagged(laid_out(5, 3, &[]), &[2, 7, 12]);
    expose_cells(0, &mut board);
    assert_eq!(exposed_cells(&board), vec![0, 1, 5, 6, 10, 11]);
    for idx in [2, 7, 12] {
        assert!(board.cell(idx).flagged);
    }
    assert!(holds_invariant(&board));
}

#[test]
fn flood_passes_a_gap_in_a_wall_of_flags() {
    let mut board = flagged(laid_out(5, 3, &[]), &[2, 7]);
    expose_cells(0, &mut board);
    assert_eq!(exposed_cells(&board), vec![0, 1, 3, 4, 5, 6, 8, 9, 10, 11, 12, 13, 14]);
}

#[test]
fn flood_does_not_pass_cells_with_mines_around() {
    // A column of mines parts the board; the cells beside it carry counts
    // and stop the flood.
    let mut board = laid_out(5, 3, &[2, 7, 12]);
    expose_cells(0, &mut board);
    assert_eq!(exposed_cells(&board), vec![0, 1, 5, 6, 10, 11]);
    assert_eq!(board.cell(1).mine_count, 2);
    assert_eq!(board.cell(6).mine_count, 3);
    assert_eq!(board.cell(11).mine_count, 2);
    assert_eq!(board.cell(0).mine_count, 0);
    assert!(holds_invariant(&board));
}

#[test]
fn flood_does_not_go_on_from_cells_exposed_before() {
    // The flag keeps the flood from cell 2; once the flag is gone, a later
    // flood from the other end reaches cell 2 only as a neighbour of cells
    // that are exposed already, and leaves it hidden.
    let mut model = Model::with_board(laid_out(3, 1, &[]));
    assert!(model.update(Msg::RightPick(1)));
    assert!(model.update(Msg::LeftPick(0)));
    assert_eq!(exposed_cells(model.board()), vec![0]);
    assert!(model.update(Msg::RightPick(1)));
    assert!(model.update(Msg::LeftPick(0)));
    assert_eq!(exposed_cells(model.board()), vec![0]);
    assert!(model.update(Msg::LeftPick(2)));
    assert_eq!(exposed_cells(model.board()), vec![0, 1, 2]);
}

#[test]
fn counts_are_the_mines_around() {
    let mined = [0, 1, 2, 5, 10, 17, 23, 24];
    let mut board = laid_out(5, 5, &mined);
    for idx in 0..25 {
        if !mined.contains(&idx) {
            expose_cells(idx, &mut board);
            assert!(board.cell(idx).exposed);
            assert_eq!(board.cell(idx).mine_count, mines_around(&board, idx));
            assert!(holds_invariant(&board));
        }
    }
    assert_eq!(board.cell(6).mine_count, 5);
    assert_eq!(board.cell(12).mine_count, 1);
    assert_eq!(board.cell(18).mine_count, 3);
    assert!(!game_over(&board));
    for idx in mined {
        assert_eq!(board.cell(idx), Cell::new(true));
    }
}

#[test]
fn cell_ringed_by_mines_counts_eight() {
    let mut board = laid_out(3, 3, &[0, 1, 2, 3, 5, 6, 7, 8]);
    expose_cells(4, &mut board);
    assert_eq!(
        board.cell(4),
        Cell { mined: false, exposed: true, flagged: false, mine_count: 8 }
    );
    assert_eq!(exposed_cells(&board), vec![4]);
}

#[test]
fn flood_is_closed_under_neighbours_of_cells_without_mines_around() {
    let mut board = flagged(laid_out(6, 6, &[14, 15, 33]), &[7, 30]);
    expose_cells(0, &mut board);
    for idx in exposed_cells(&board) {
        if board.cell(idx).mine_count == 0 {
            for other in neighbours(idx, 6, 6) {
                let cell = board.cell(other);
                assert!(cell.exposed || cell.flagged);
            }
        }
    }
    assert!(holds_invariant(&board));
}

#[test]
fn pick_keeps_the_mines() {
    let mined = [3, 9, 20, 21];
    let mut board = laid_out(5, 5, &mined);
    expose_cells(24, &mut board);
    expose_cells(0, &mut board);
    expose_cells(3, &mut board);
    for idx in 0..25 {
        assert_eq!(board.cell(idx).mined, mined.contains(&idx));
    }
}

#[test]
fn pick_clears_a_standard_board_without_mines() {
    let mut board = laid_out(WIDTH, HEIGHT, &[]);
    expose_cells(617, &mut board);
    for idx in 0..WIDTH * HEIGHT {
        assert_eq!(
            board.cell(idx),
            Cell { mined: false, exposed: true, flagged: false, mine_count: 0 }
        );
    }
}

#[test]
fn pick_on_a_one_cell_board() {
    let mut clear = laid_out(1, 1, &[]);
    expose_cells(0, &mut clear);
    assert_eq!(
        clear.cell(0),
        Cell { mined: false, exposed: true, flagged: false, mine_count: 0 }
    );
    let mut mined = laid_out(1, 1, &[0]);
    expose_cells(0, &mut mined);
    assert_eq!(
        mined.cell(0),
        Cell { mined: true, exposed: true, flagged: false, mine_count: 0 }
    );
}
