use minesweeper::board::game_over;
use minesweeper::board::Board;
use minesweeper::cell::Cell;
use minesweeper::game::Model;
use minesweeper::game::Msg;
use minesweeper::generator::generate_board;
use minesweeper::generator::generate_cell;
use minesweeper::generator::sample_board;
use minesweeper::generator::sample_cell;
use minesweeper::generator::MINE_CHANCE_DENOMINATOR;
use minesweeper::generator::MINE_CHANCE_NUMERATOR;
use minesweeper::geometry::HEIGHT;
use minesweeper::geometry::WIDTH;

fn game_on(width: usize, height: usize, mined: &[usize]) -> Model {
    let mut mines = vec![false; width * height];
    for idx in mined {
        mines[*idx] = true;
    }
    Model::with_board(Board::from_mines(width, height, &mines).unwrap())
}

fn is_untouched(board: &Board) -> bool {
    (0..board.len()).all(|idx| {
        let cell = board.cell(idx);
        !cell.exposed && !cell.flagged && cell.mine_count == 0
    })
}

#[test]
fn standard_chance_is_one_in_five() {
    assert_eq!(MINE_CHANCE_NUMERATOR, 1);
    assert_eq!(MINE_CHANCE_DENOMINATOR, 5);
}

#[test]
fn generated_cell_is_fresh() {
    for _ in 0..100 {
        let cell = generate_cell();
        assert_eq!(cell, Cell::new(cell.mined));
    }
}

#[test]
fn sampled_cell_follows_certain_odds() {
    for _ in 0..100 {
        assert_eq!(sample_cell(0, 5), Cell::new(false));
        assert_eq!(sample_cell(5, 5), Cell::new(true));
        assert_eq!(sample_cell(0, 1), Cell::new(false));
        assert_eq!(sample_cell(1, 1), Cell::new(true));
    }
}

#[test]
fn generated_board_is_untouched_and_has_the_standard_shape() {
    let board = generate_board();
    assert_eq!(board.width(), WIDTH);
    assert_eq!(board.height(), HEIGHT);
    assert_eq!(board.len(), WIDTH * HEIGHT);
    assert_eq!(board.len(), 1200);
    assert!(is_untouched(&board));
    assert!(!game_over(&board));
}

#[test]
fn generated_board_has_some_mines_and_some_clear_cells() {
    // With 1200 independent draws at one in five, a board without a mine,
    // or without a clear cell, all but never comes.
    let board = generate_board();
    let mines = (0..board.len()).filter(|idx| board.cell(*idx).mined).count();
    assert!(0 < mines && mines < board.len());
}

#[test]
fn sampled_board_has_the_shape_asked_for() {
    let board = sample_board(7, 4, 1, 3);
    assert_eq!(board.width(), 7);
    assert_eq!(board.height(), 4);
    assert_eq!(board.len(), 28);
    assert!(is_untouched(&board));
}

#[test]
fn board_without_mines_is_cleared_by_one_pick() {
    let mut model = Model::with_board(sample_board(WIDTH, HEIGHT, 0, 5));
    assert!(model.update(Msg::LeftPick(0)));
    for idx in 0..WIDTH * HEIGHT {
        assert_eq!(
            model.board().cell(idx),
            Cell { mined: false, exposed: true, flagged: false, mine_count: 0 }
        );
    }
    assert!(!game_over(model.board()));
}

#[test]
fn board_full_of_mines_is_exposed_by_one_pick() {
    let mut model = Model::with_board(sample_board(WIDTH, HEIGHT, 5, 5));
    assert!(model.update(Msg::LeftPick(1199)));
    for idx in 0..WIDTH * HEIGHT {
        assert_eq!(
            model.board().cell(idx),
            Cell { mined: true, exposed: true, flagged: false, mine_count: 0 }
        );
    }
    assert!(game_over(model.board()));
}

#[test]
fn created_game_starts_on_an_untouched_standard_board() {
    let model = Model::create();
    assert_eq!(model.board().width(), WIDTH);
    assert_eq!(model.board().height(), HEIGHT);
    assert_eq!(model.board().len(), WIDTH * HEIGHT);
    assert!(is_untouched(model.board()));
    assert!(!game_over(model.board()));
}

#[test]
fn left_pick_reveals_and_asks_to_render() {
    let mut model = game_on(3, 3, &[0]);
    assert!(model.update(Msg::LeftPick(8)));
    assert!(!model.board().cell(0).exposed);
    for idx in 1..9 {
        assert!(model.board().cell(idx).exposed);
    }
    for idx in [1, 3, 4] {
        assert_eq!(model.board().cell(idx).mine_count, 1);
    }
    for idx in [2, 5, 6, 7, 8] {
        assert_eq!(model.board().cell(idx).mine_count, 0);
    }
}

#[test]
fn left_pick_on_a_settled_cell_still_asks_to_render() {
    let mut model = game_on(3, 3, &[0]);
    assert!(model.update(Msg::LeftPick(4)));
    let before = model.clone();
    assert!(model.update(Msg::LeftPick(4)));
    assert_eq!(model, before);
    assert!(model.update(Msg::RightPick(8)));
    let flagged = model.clone();
    assert!(model.update(Msg::LeftPick(8)));
    assert_eq!(model, flagged);
}

#[test]
fn right_pick_sets_the_flag() {
    let mut model = game_on(3, 3, &[0]);
    assert!(model.update(Msg::RightPick(4)));
    for idx in 0..9 {
        assert_eq!(
            model.board().cell(idx),
            Cell { mined: idx == 0, exposed: false, flagged: idx == 4, mine_count: 0 }
        );
    }
}

#[test]
fn right_pick_twice_restores_the_board() {
    let mut model = game_on(3, 3, &[0]);
    assert!(model.update(Msg::LeftPick(4)));
    let before = model.clone();
    assert!(model.update(Msg::RightPick(0)));
    assert_ne!(model, before);
    assert!(model.update(Msg::RightPick(0)));
    assert_eq!(model, before);
}

#[test]
fn right_pick_on_an_exposed_cell_does_nothing() {
    let mut model = game_on(3, 3, &[0]);
    assert!(model.update(Msg::LeftPick(4)));
    let before = model.clone();
    assert!(!model.update(Msg::RightPick(4)));
    assert_eq!(model, before);
}

#[test]
fn mine_click_ends_the_game() {
    let mut model = game_on(3, 3, &[0, 8]);
    assert!(model.update(Msg::LeftPick(4)));
    assert_eq!(
        model.board().cell(4),
        Cell { mined: false, exposed: true, flagged: false, mine_count: 2 }
    );
    for idx in [0, 1, 2, 3, 5, 6, 7, 8] {
        assert!(!model.board().cell(idx).exposed);
    }
    assert!(!game_over(model.board()));
    assert!(model.update(Msg::LeftPick(0)));
    for idx in [0, 8] {
        assert_eq!(
            model.board().cell(idx),
            Cell { mined: true, exposed: true, flagged: false, mine_count: 0 }
        );
    }
    for idx in [1, 2, 3, 5, 6, 7] {
        assert_eq!(model.board().cell(idx), Cell::new(false));
    }
    assert!(game_over(model.board()));
    let lost = model.clone();
    assert!(!model.update(Msg::LeftPick(1)));
    assert_eq!(model, lost);
}

#[test]
fn lost_game_ignores_every_pick() {
    let mut model = game_on(3, 3, &[0, 8]);
    assert!(model.update(Msg::RightPick(5)));
    assert!(model.update(Msg::LeftPick(8)));
    assert!(game_over(model.board()));
    let lost = model.clone();
    for idx in 0..9 {
        assert!(!model.update(Msg::LeftPick(idx)));
        assert_eq!(model, lost);
        assert!(!model.update(Msg::RightPick(idx)));
        assert_eq!(model, lost);
    }
    // A lost game does not look at the cell that a pick names.
    assert!(!model.update(Msg::LeftPick(1000)));
    assert!(!model.update(Msg::RightPick(1000)));
    assert_eq!(model, lost);
}

#[test]
fn reset_clears_state() {
    let mut model = game_on(3, 3, &[0, 8]);
    assert!(model.update(Msg::LeftPick(4)));
    assert!(model.update(Msg::RightPick(1)));
    assert!(model.update(Msg::LeftPick(0)));
    assert!(game_over(model.board()));
    assert!(model.update(Msg::Reset));
    assert_eq!(model.board().width(), 3);
    assert_eq!(model.board().height(), 3);
    assert_eq!(model.board().len(), 9);
    assert!(is_untouched(model.board()));
    assert!(!game_over(model.board()));
    assert!(model.update(Msg::RightPick(4)));
    assert!(model.board().cell(4).flagged);
}

#[test]
fn reset_of_a_standard_game_gives_a_standard_board() {
    let mut model = Model::create();
    assert!(model.update(Msg::LeftPick(0)));
    assert!(model.update(Msg::Reset));
    assert_eq!(model.board().len(), 1200);
    assert!(is_untouched(model.board()));
}

#[test]
fn picks_keep_the_mines_and_the_shape() {
    let mut model = Model::create();
    let mines: Vec<bool> = (0..1200).map(|idx| model.board().cell(idx).mined).collect();
    for idx in [0, 39, 600, 1160, 1199, 77, 613] {
        model.update(Msg::RightPick(idx));
        model.update(Msg::LeftPick(idx + 1 - idx % 2));
        model.update(Msg::LeftPick(idx));
        assert_eq!(model.board().len(), 1200);
        for at in 0..1200 {
            assert_eq!(model.board().cell(at).mined, mines[at]);
        }
    }
}

#[test]
fn no_cell_is_exposed_and_flagged_while_the_game_goes_on() {
    let mut model = game_on(4, 4, &[5, 15]);
    for msg in [
        Msg::RightPick(0),
        Msg::RightPick(5),
        Msg::LeftPick(0),
        Msg::LeftPick(3),
        Msg::RightPick(3),
        Msg::RightPick(0),
        Msg::LeftPick(12),
        Msg::LeftPick(0),
    ] {
        model.update(msg);
        assert!(!game_over(model.board()));
        for idx in 0..16 {
            let cell = model.board().cell(idx);
            assert!(!(cell.exposed && cell.flagged));
            assert!(cell.mine_count <= 8);
        }
    }
}
