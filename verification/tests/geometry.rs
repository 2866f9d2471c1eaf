use minesweeper::geometry::neighbours;
use minesweeper::geometry::HEIGHT;
use minesweeper::geometry::WIDTH;

#[test]
fn standard_board_is_forty_by_thirty() {
    assert_eq!(WIDTH, 40);
    assert_eq!(HEIGHT, 30);
}

#[test]
fn first_cell_has_east_south_and_south_east() {
    assert_eq!(neighbours(0, WIDTH, HEIGHT), vec![1, WIDTH, WIDTH + 1]);
    assert_eq!(neighbours(0, 3, 3), vec![1, 3, 4]);
}

#[test]
fn end_of_first_row_has_west_south_west_and_south() {
    assert_eq!(
        neighbours(WIDTH - 1, WIDTH, HEIGHT),
        vec![WIDTH - 2, 2 * WIDTH - 2, 2 * WIDTH - 1]
    );
    assert_eq!(neighbours(2, 3, 3), vec![1, 4, 5]);
}

#[test]
fn last_cell_has_north_west_north_and_west() {
    let last = WIDTH * HEIGHT - 1;
    assert_eq!(
        neighbours(last, WIDTH, HEIGHT),
        vec![last - WIDTH - 1, last - WIDTH, last - 1]
    );
    assert_eq!(neighbours(8, 3, 3), vec![4, 5, 7]);
}

#[test]
fn start_of_last_row_has_north_north_east_and_east() {
    let idx = WIDTH * (HEIGHT - 1);
    assert_eq!(
        neighbours(idx, WIDTH, HEIGHT),
        vec![idx - WIDTH, idx - WIDTH + 1, idx + 1]
    );
    assert_eq!(neighbours(6, 3, 3), vec![3, 4, 7]);
}

#[test]
fn cells_on_the_border_have_five_neighbours() {
    assert_eq!(neighbours(1, 3, 3), vec![0, 2, 3, 4, 5]);
    assert_eq!(neighbours(3, 3, 3), vec![0, 1, 4, 6, 7]);
    assert_eq!(neighbours(5, 3, 3), vec![1, 2, 4, 7, 8]);
    assert_eq!(neighbours(7, 3, 3), vec![3, 4, 5, 6, 8]);
    assert_eq!(neighbours(17, WIDTH, HEIGHT), vec![16, 18, 56, 57, 58]);
    assert_eq!(neighbours(80, WIDTH, HEIGHT), vec![40, 41, 81, 120, 121]);
}

#[test]
fn cell_inside_has_eight_neighbours_in_order() {
    assert_eq!(neighbours(4, 3, 3), vec![0, 1, 2, 3, 5, 6, 7, 8]);
    assert_eq!(
        neighbours(41, WIDTH, HEIGHT),
        vec![0, 1, 2, 40, 42, 80, 81, 82]
    );
}

#[test]
fn every_cell_of_the_standard_board_has_three_five_or_eight_neighbours() {
    for idx in 0..WIDTH * HEIGHT {
        let x = idx % WIDTH;
        let y = idx / WIDTH;
        let at_side = x == 0 || x == WIDTH - 1;
        let at_end = y == 0 || y == HEIGHT - 1;
        let expected = if at_side && at_end {
            3
        } else if at_side || at_end {
            5
        } else {
            8
        };
        assert_eq!(neighbours(idx, WIDTH, HEIGHT).len(), expected);
    }
}

#[test]
fn neighbours_lie_one_step_away_and_ascend() {
    let (width, height) = (7, 5);
    for idx in 0..width * height {
        let around = neighbours(idx, width, height);
        for pair in around.windows(2) {
            assert!(pair[0] < pair[1]);
        }
        for other in 0..width * height {
            let dx = (other % width).abs_diff(idx % width);
            let dy = (other / width).abs_diff(idx / width);
            let adjacent = other != idx && dx <= 1 && dy <= 1;
            assert_eq!(around.contains(&other), adjacent);
        }
    }
}

#[test]
fn single_cell_has_no_neighbour() {
    assert_eq!(neighbours(0, 1, 1), Vec::<usize>::new());
}

#[test]
fn single_row_has_neighbours_to_the_sides_only() {
    assert_eq!(neighbours(0, 4, 1), vec![1]);
    assert_eq!(neighbours(2, 4, 1), vec![1, 3]);
    assert_eq!(neighbours(3, 4, 1), vec![2]);
}

#[test]
fn single_column_has_neighbours_above_and_below_only() {
    assert_eq!(neighbours(0, 1, 4), vec![1]);
    assert_eq!(neighbours(2, 1, 4), vec![1, 3]);
    assert_eq!(neighbours(3, 1, 4), vec![2]);
}

#[test]
fn two_columns_keep_the_order() {
    assert_eq!(neighbours(2, 2, 3), vec![0, 1, 3, 4, 5]);
    assert_eq!(neighbours(3, 2, 3), vec![0, 1, 2, 4, 5]);
}
