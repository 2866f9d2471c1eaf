//! Index and coordinate arithmetic on a row-major grid, and the Moore
//! neighbourhood of a cell clipped to the grid.
//!
//! A grid of `width` columns and `height` rows numbers its cells row by row:
//! the cell in column `x` of row `y` has index `y * width + x`.

use vstd::prelude::*;
use vstd::arithmetic::div_mod::lemma_div_pos_is_pos;
use vstd::arithmetic::div_mod::lemma_fundamental_div_mod;
use vstd::arithmetic::div_mod::lemma_fundamental_div_mod_converse;
use vstd::arithmetic::div_mod::lemma_mod_pos_bound;
use vstd::arithmetic::div_mod::lemma_multiply_divide_lt;

verus! {

/// Number of rows of the standard board.
pub const HEIGHT: usize = 30;

/// Number of columns of the standard board.
pub const WIDTH: usize = 40;

/// The column of the cell with index `idx`.
pub open spec fn column(width: int, idx: int) -> int {
    idx % width
}

/// The row of the cell with index `idx`.
pub open spec fn row(width: int, idx: int) -> int {
    idx / width
}

/// The index of the cell in column `x` of row `y`.
pub open spec fn index_at(width: int, x: int, y: int) -> int {
    y * width + x
}

/// Whether column `x` of row `y` lies on the grid.
pub open spec fn in_grid(width: int, height: int, x: int, y: int) -> bool {
    0 <= x < width && 0 <= y < height
}

/// Whether `a` and `b` are two different cells of the grid whose columns and
/// rows each differ by at most one.
pub open spec fn adjacent(width: int, height: int, a: int, b: int) -> bool {
    &&& 0 <= a < width * height
    &&& 0 <= b < width * height
    &&& a != b
    &&& -1 <= column(width, b) - column(width, a) <= 1
    &&& -1 <= row(width, b) - row(width, a) <= 1
}

/// The neighbour of `idx` that lies `dx` columns and `dy` rows away, as a
/// sequence of one index, or the empty sequence where that place is off the grid.
pub open spec fn neighbour_at(width: int, height: int, idx: int, dx: int, dy: int) -> Seq<int> {
    let x = column(width, idx) + dx;
    let y = row(width, idx) + dy;
    if in_grid(width, height, x, y) {
        seq![index_at(width, x, y)]
    } else {
        Seq::empty()
    }
}

/// The neighbours of `idx` on the grid, in the order north-west, north,
/// north-east, west, east, south-west, south, south-east.
pub open spec fn neighbour_seq(width: int, height: int, idx: int) -> Seq<int> {
    neighbour_at(width, height, idx, -1, -1) + neighbour_at(width, height, idx, 0, -1)
        + neighbour_at(width, height, idx, 1, -1) + neighbour_at(width, height, idx, -1, 0)
        + neighbour_at(width, height, idx, 1, 0) + neighbour_at(width, height, idx, -1, 1)
        + neighbour_at(width, height, idx, 0, 1) + neighbour_at(width, height, idx, 1, 1)
}

/// The indices of a vector, read as mathematical integers.
pub open spec fn as_ints(indices: Seq<usize>) -> Seq<int> {
    indices.map_values(|i: usize| i as int)
}

/// Every index of the grid has its column and row on the grid, and is the
/// index of that place.
pub proof fn lemma_coordinates_of_index(width: int, height: int, idx: int)
    requires
        0 <= idx < width * height,
        0 < width,
    ensures
        in_grid(width, height, column(width, idx), row(width, idx)),
        index_at(width, column(width, idx), row(width, idx)) == idx,
{
    lemma_fundamental_div_mod(idx, width);
    lemma_mod_pos_bound(idx, width);
    lemma_div_pos_is_pos(idx, width);
    lemma_multiply_divide_lt(idx, width, height);
    assert(width * (idx / width) == (idx / width) * width) by (nonlinear_arith);
}

/// Every place of the grid has an index below `width * height`, and that
/// index has the place's column and row.
pub proof fn lemma_index_of_coordinates(width: int, height: int, x: int, y: int)
    requires
        in_grid(width, height, x, y),
    ensures
        0 <= index_at(width, x, y) < width * height,
        column(width, index_at(width, x, y)) == x,
        row(width, index_at(width, x, y)) == y,
{
    assert(0 <= y * width && y * width + width <= height * width && height * width == width
        * height) by (nonlinear_arith)
        requires
            0 <= y < height,
            0 < width,
    ;
    lemma_fundamental_div_mod_converse(index_at(width, x, y), width, y, x);
}

/// The cells of a grid and the places on it correspond one to one: two
/// indices with the same column and row are the same index.
pub proof fn lemma_index_is_unique(width: int, height: int, a: int, b: int)
    requires
        0 < width,
        0 <= a < width * height,
        0 <= b < width * height,
        column(width, a) == column(width, b),
        row(width, a) == row(width, b),
    ensures
        a == b,
{
    lemma_coordinates_of_index(width, height, a);
    lemma_coordinates_of_index(width, height, b);
}

/// The neighbour of `idx` in a given direction, where it is on the grid, is
/// adjacent to `idx` and lies in that direction.
pub proof fn lemma_neighbour_at(width: int, height: int, idx: int, dx: int, dy: int)
    requires
        0 < width,
        0 <= idx < width * height,
        -1 <= dx <= 1,
        -1 <= dy <= 1,
        dx != 0 || dy != 0,
        in_grid(width, height, column(width, idx) + dx, row(width, idx) + dy),
    ensures
        neighbour_at(width, height, idx, dx, dy).len() == 1,
        adjacent(width, height, idx, neighbour_at(width, height, idx, dx, dy)[0]),
        column(width, neighbour_at(width, height, idx, dx, dy)[0]) == column(width, idx) + dx,
        row(width, neighbour_at(width, height, idx, dx, dy)[0]) == row(width, idx) + dy,
{
    lemma_index_of_coordinates(width, height, column(width, idx) + dx, row(width, idx) + dy);
}

/// A cell is among the neighbours of `idx` exactly if it is adjacent to `idx`.
pub proof fn lemma_neighbours_are_the_adjacent_cells(width: int, height: int, idx: int, other: int)
    requires
        0 < width,
        0 <= idx < width * height,
    ensures
        neighbour_seq(width, height, idx).contains(other) <==> adjacent(width, height, idx, other),
{
    broadcast use vstd::seq_lib::lemma_seq_concat_contains_all_elements;

    let x = column(width, idx);
    let y = row(width, idx);
    lemma_coordinates_of_index(width, height, idx);
    if neighbour_seq(width, height, idx).contains(other) {
        assert forall|dx: int, dy: int|
            -1 <= dx <= 1 && -1 <= dy <= 1 && (dx != 0 || dy != 0) && #[trigger] neighbour_at(
                width,
                height,
                idx,
                dx,
                dy,
            ).contains(other) implies adjacent(width, height, idx, other) by {
            lemma_neighbour_at(width, height, idx, dx, dy);
        }
    }
    if adjacent(width, height, idx, other) {
        let dx = column(width, other) - x;
        let dy = row(width, other) - y;
        lemma_coordinates_of_index(width, height, other);
        if dx == 0 && dy == 0 {
            lemma_index_is_unique(width, height, idx, other);
        }
        assert(neighbour_at(width, height, idx, dx, dy) == seq![other]);
        assert(seq![other][0] == other);
        assert(neighbour_at(width, height, idx, dx, dy).contains(other));
    }
}

/// Whether the indices of `cells` rise from each to the next.
pub open spec fn ascending(cells: Seq<int>) -> bool {
    forall|s: int, t: int| 0 <= s < t < cells.len() ==> cells[s] < cells[t]
}

/// Whether each of `cells` is a cell of the grid that comes no later, row by
/// row, than column `x` of row `y`, and none later than the place before it
/// where `strictly` holds.
spec fn all_up_to(width: int, height: int, cells: Seq<int>, x: int, y: int, strictly: bool) -> bool {
    forall|s: int|
        0 <= s < cells.len() ==> {
            &&& 0 <= #[trigger] cells[s] < width * height
            &&& row(width, cells[s]) < y || (row(width, cells[s]) == y && (column(width, cells[s])
                < x || (!strictly && column(width, cells[s]) == x)))
        }
}

/// A cell that comes before a place of the grid, row by row, has the smaller index.
proof fn lemma_earlier_place_has_smaller_index(width: int, height: int, cell: int, x: int, y: int)
    requires
        0 < width,
        0 <= cell < width * height,
        in_grid(width, height, x, y),
        row(width, cell) < y || (row(width, cell) == y && column(width, cell) < x),
    ensures
        cell < index_at(width, x, y),
{
    lemma_coordinates_of_index(width, height, cell);
    let r = row(width, cell);
    if r < y {
        assert(r * width + width <= y * width) by (nonlinear_arith)
            requires
                r < y,
                0 < width,
        ;
    }
}

/// Neighbours gathered in their order stay ascending when the next one joins them.
proof fn lemma_next_neighbour_ascends(
    width: int,
    height: int,
    idx: int,
    gathered: Seq<int>,
    dx: int,
    dy: int,
)
    requires
        0 < width,
        0 <= idx < width * height,
        ascending(gathered),
        all_up_to(width, height, gathered, column(width, idx) + dx, row(width, idx) + dy, true),
    ensures
        ascending(gathered + neighbour_at(width, height, idx, dx, dy)),
        all_up_to(
            width,
            height,
            gathered + neighbour_at(width, height, idx, dx, dy),
            column(width, idx) + dx,
            row(width, idx) + dy,
            false,
        ),
{
    let x = column(width, idx) + dx;
    let y = row(width, idx) + dy;
    let next = neighbour_at(width, height, idx, dx, dy);
    let longer = gathered + next;
    if in_grid(width, height, x, y) {
        lemma_index_of_coordinates(width, height, x, y);
        assert forall|s: int, t: int| 0 <= s < t < longer.len() implies longer[s] < longer[t] by {
            if t == gathered.len() {
                lemma_earlier_place_has_smaller_index(width, height, gathered[s], x, y);
            }
        }
    } else {
        assert(longer =~= gathered);
    }
}

/// The neighbours of a cell come in ascending order, so that none comes twice.
pub proof fn lemma_neighbours_ascend(width: int, height: int, idx: int)
    requires
        0 < width,
        0 <= idx < width * height,
    ensures
        ascending(neighbour_seq(width, height, idx)),
{
    let none = Seq::<int>::empty();
    assert(none + neighbour_at(width, height, idx, -1, -1) =~= neighbour_at(
        width,
        height,
        idx,
        -1,
        -1,
    ));
    lemma_next_neighbour_ascends(width, height, idx, none, -1, -1);
    let a = neighbour_at(width, height, idx, -1, -1);
    lemma_next_neighbour_ascends(width, height, idx, a, 0, -1);
    let b = a + neighbour_at(width, height, idx, 0, -1);
    lemma_next_neighbour_ascends(width, height, idx, b, 1, -1);
    let c = b + neighbour_at(width, height, idx, 1, -1);
    lemma_next_neighbour_ascends(width, height, idx, c, -1, 0);
    let d = c + neighbour_at(width, height, idx, -1, 0);
    lemma_next_neighbour_ascends(width, height, idx, d, 1, 0);
    let e = d + neighbour_at(width, height, idx, 1, 0);
    lemma_next_neighbour_ascends(width, height, idx, e, -1, 1);
    let f = e + neighbour_at(width, height, idx, -1, 1);
    lemma_next_neighbour_ascends(width, height, idx, f, 0, 1);
    let g = f + neighbour_at(width, height, idx, 0, 1);
    lemma_next_neighbour_ascends(width, height, idx, g, 1, 1);
}

/// How many columns (or rows) of a grid `size` wide lie at most one away from
/// column `at`: three in the middle, two at either end, one where the grid is
/// a single column wide.
pub open spec fn span(size: int, at: int) -> int {
    1 + (if 0 < at { 1int } else { 0int }) + (if at + 1 < size { 1int } else { 0int })
}

/// A cell has as many neighbours as there are places around it on the grid.
pub proof fn lemma_neighbour_count(width: int, height: int, idx: int)
    requires
        0 < width,
        0 <= idx < width * height,
    ensures
        neighbour_seq(width, height, idx).len() == span(width, column(width, idx)) * span(
            height,
            row(width, idx),
        ) - 1,
        neighbour_seq(width, height, idx).len() <= 8,
{
    lemma_coordinates_of_index(width, height, idx);
    let across = span(width, column(width, idx));
    let down = span(height, row(width, idx));
    assert(across * down == if across == 1 {
        down
    } else if across == 2 {
        2 * down
    } else {
        3 * down
    }) by (nonlinear_arith)
        requires
            1 <= across <= 3,
    ;
}

/// On a grid at least two cells wide and two high, a corner cell has three
/// neighbours, any other cell on the border five, and a cell inside eight.
pub proof fn lemma_neighbour_count_by_position(width: int, height: int, idx: int)
    requires
        2 <= width,
        2 <= height,
        0 <= idx < width * height,
    ensures
        ({
            let x = column(width, idx);
            let y = row(width, idx);
            let at_side = x == 0 || x == width - 1;
            let at_end = y == 0 || y == height - 1;
            neighbour_seq(width, height, idx).len() == if at_side && at_end {
                3int
            } else if at_side || at_end {
                5int
            } else {
                8int
            }
        }),
{
    lemma_coordinates_of_index(width, height, idx);
}

/// On a grid at least two cells wide and two high, the first cell has its
/// eastern, southern and south-eastern neighbours, the last cell of the first
/// row its western, south-western and southern ones, and the last cell of the
/// grid its north-western, northern and western ones.
pub proof fn lemma_corner_neighbours(width: int, height: int)
    requires
        2 <= width,
        2 <= height,
    ensures
        neighbour_seq(width, height, 0) == seq![1, width, width + 1],
        neighbour_seq(width, height, width - 1) == seq![
            width - 2,
            2 * width - 2,
            2 * width - 1,
        ],
        neighbour_seq(width, height, width * height - 1) == seq![
            width * height - width - 2,
            width * height - width - 1,
            width * height - 2,
        ],
{
    lemma_first_corner(width, height);
    lemma_second_corner(width, height);
    lemma_last_corner(width, height);
}

/// The neighbours of the first cell.
proof fn lemma_first_corner(width: int, height: int)
    requires
        2 <= width,
        2 <= height,
    ensures
        neighbour_seq(width, height, 0) == seq![1, width, width + 1],
{
    lemma_fundamental_div_mod_converse(0, width, 0, 0);
    assert(neighbour_at(width, height, 0, 1, 0) =~= seq![1]);
    assert(neighbour_at(width, height, 0, 0, 1) =~= seq![width]);
    assert(neighbour_at(width, height, 0, 1, 1) =~= seq![width + 1]);
    assert(neighbour_seq(width, height, 0) =~= seq![1, width, width + 1]);
}

/// The neighbours of the last cell of the first row.
proof fn lemma_second_corner(width: int, height: int)
    requires
        2 <= width,
        2 <= height,
    ensures
        neighbour_seq(width, height, width - 1) == seq![
            width - 2,
            2 * width - 2,
            2 * width - 1,
        ],
{
    let idx = width - 1;
    lemma_fundamental_div_mod_converse(idx, width, 0, width - 1);
    assert(neighbour_at(width, height, idx, -1, 0) =~= seq![width - 2]);
    assert(neighbour_at(width, height, idx, -1, 1) =~= seq![2 * width - 2]);
    assert(neighbour_at(width, height, idx, 0, 1) =~= seq![2 * width - 1]);
    assert(neighbour_seq(width, height, idx) =~= seq![width - 2, 2 * width - 2, 2 * width - 1]);
}

/// The neighbours of the last cell.
proof fn lemma_last_corner(width: int, height: int)
    requires
        2 <= width,
        2 <= height,
    ensures
        neighbour_seq(width, height, width * height - 1) == seq![
            width * height - width - 2,
            width * height - width - 1,
            width * height - 2,
        ],
{
    let idx = width * height - 1;
    assert(idx == (height - 1) * width + (width - 1)) by (nonlinear_arith)
        requires
            idx == width * height - 1,
    ;
    lemma_fundamental_div_mod_converse(idx, width, height - 1, width - 1);
    assert((height - 2) * width == width * height - 2 * width) by (nonlinear_arith);
    assert((height - 1) * width == width * height - width) by (nonlinear_arith);
    assert(neighbour_at(width, height, idx, -1, -1) =~= seq![width * height - width - 2]);
    assert(neighbour_at(width, height, idx, 0, -1) =~= seq![width * height - width - 1]);
    assert(neighbour_at(width, height, idx, -1, 0) =~= seq![width * height - 2]);
    assert(neighbour_seq(width, height, idx) =~= seq![
        width * height - width - 2,
        width * height - width - 1,
        width * height - 2,
    ]);
}

/// The neighbours of `idx`, in the order north-west, north, north-east,
/// west, east, south-west, south, south-east, those off the grid left out.
pub fn neighbours(idx: usize, width: usize, height: usize) -> (result: Vec<usize>)
    requires
        idx < width * height,
        width * height <= usize::MAX,
    ensures
        as_ints(result@) == neighbour_seq(width as int, height as int, idx as int),
{
    let ghost w = width as int;
    let ghost h = height as int;
    let ghost i = idx as int;
    assert(0 < width) by (nonlinear_arith)
        requires
            idx < width * height,
    ;
    proof {
        lemma_coordinates_of_index(w, h, i);
    }
    let mut result: Vec<usize> = Vec::new();
    let x = idx % width;
    let y = idx / width;
    let xs1 = x.checked_sub(1);
    let xa1 = x.checked_add(1);
    let ys1 = y.checked_sub(1);
    let ya1 = y.checked_add(1);
    let ghost mut expected: Seq<int> = Seq::empty();
    assert(as_ints(result@) =~= expected);
    if xs1.is_some() && ys1.is_some() {
        proof {
            lemma_index_of_coordinates(w, h, x - 1, y - 1);
        }
        result.push(ys1.unwrap() * width + xs1.unwrap());
    }
    proof {
        expected = expected + neighbour_at(w, h, i, -1, -1);
    }
    assert(as_ints(result@) =~= expected);
    if ys1.is_some() {
        proof {
            lemma_index_of_coordinates(w, h, x as int, y - 1);
        }
        result.push(ys1.unwrap() * width + x);
    }
    proof {
        expected = expected + neighbour_at(w, h, i, 0, -1);
    }
    assert(as_ints(result@) =~= expected);
    if xa1.is_some() && xa1.unwrap() < width && ys1.is_some() {
        proof {
            lemma_index_of_coordinates(w, h, x + 1, y - 1);
        }
        result.push(ys1.unwrap() * width + xa1.unwrap());
    }
    proof {
        expected = expected + neighbour_at(w, h, i, 1, -1);
    }
    assert(as_ints(result@) =~= expected);
    if xs1.is_some() {
        proof {
            lemma_index_of_coordinates(w, h, x - 1, y as int);
        }
        result.push(y * width + xs1.unwrap());
    }
    proof {
        expected = expected + neighbour_at(w, h, i, -1, 0);
    }
    assert(as_ints(result@) =~= expected);
    if xa1.is_some() && xa1.unwrap() < width {
        proof {
            lemma_index_of_coordinates(w, h, x + 1, y as int);
        }
        result.push(y * width + xa1.unwrap());
    }
    proof {
        expected = expected + neighbour_at(w, h, i, 1, 0);
    }
    assert(as_ints(result@) =~= expected);
    if xs1.is_some() && ya1.is_some() && ya1.unwrap() < height {
        proof {
            lemma_index_of_coordinates(w, h, x - 1, y + 1);
        }
        result.push(ya1.unwrap() * width + xs1.unwrap());
    }
    proof {
        expected = expected + neighbour_at(w, h, i, -1, 1);
    }
    assert(as_ints(result@) =~= expected);
    if ya1.is_some() && ya1.unwrap() < height {
        proof {
            lemma_index_of_coordinates(w, h, x as int, y + 1);
        }
        result.push(ya1.unwrap() * width + x);
    }
    proof {
        expected = expected + neighbour_at(w, h, i, 0, 1);
    }
    assert(as_ints(result@) =~= expected);
    if xa1.is_some() && xa1.unwrap() < width && ya1.is_some() && ya1.unwrap() < height {
        proof {
            lemma_index_of_coordinates(w, h, x + 1, y + 1);
        }
        result.push(ya1.unwrap() * width + xa1.unwrap());
    }
    proof {
        expected = expected + neighbour_at(w, h, i, 1, 1);
    }
    assert(as_ints(result@) =~= expected);
    assert(expected =~= neighbour_seq(w, h, i));
    result
}

} // verus!
