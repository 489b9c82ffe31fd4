//! The square grid that the city stands on.
//!
//! Cell coordinates run from `-count_r` to `count_r` in both directions. A
//! cell's position is its index in row-major order, lowest y first.

use vstd::prelude::*;
use vstd::arithmetic::div_mod::lemma_fundamental_div_mod;
use vstd::arithmetic::div_mod::lemma_fundamental_div_mod_converse;
use vstd::arithmetic::div_mod::lemma_mod_bound;
use vstd::arithmetic::div_mod::lemma_div_pos_is_pos;
use vstd::arithmetic::div_mod::lemma_multiply_divide_lt;

verus! {

/// The number of cells in a row.
pub open spec fn row_length(count_r: int) -> int {
    2 * count_r + 1
}

/// The number of cells.
pub open spec fn n_cells(count_r: int) -> int {
    row_length(count_r) * row_length(count_r)
}

/// The position of the cell `(x, y)`.
pub open spec fn position(count_r: int, x: int, y: int) -> int {
    (y + count_r) * row_length(count_r) + (x + count_r)
}

/// The x coordinate of the cell at `position`.
pub open spec fn x_of(count_r: int, position: int) -> int {
    position % row_length(count_r) - count_r
}

/// The y coordinate of the cell at `position`.
pub open spec fn y_of(count_r: int, position: int) -> int {
    position / row_length(count_r) - count_r
}

/// Whether the cell `(x, y)` belongs to the city at first: its centre is
/// closer to the origin than `count_r` and a half. In whole numbers,
/// `x * x + y * y < (count_r + 1/2) * (count_r + 1/2)` says as much as
/// `x * x + y * y <= count_r * count_r + count_r`.
pub open spec fn included(count_r: int, x: int, y: int) -> bool {
    x * x + y * y <= count_r * count_r + count_r
}

/// Whether the cell at `position` belongs to the city at first.
pub open spec fn included_at(count_r: int, position: int) -> bool {
    included(count_r, x_of(count_r, position), y_of(count_r, position))
}

/// The positions below `bound` that belong to the city at first, in
/// increasing order.
pub open spec fn included_below(count_r: int, bound: int) -> Seq<int>
    decreases bound,
{
    if bound <= 0 {
        Seq::empty()
    } else if included_at(count_r, bound - 1) {
        included_below(count_r, bound - 1).push(bound - 1)
    } else {
        included_below(count_r, bound - 1)
    }
}

/// A grid has at least one cell, and no fewer cells than a row has.
pub proof fn lemma_grid_size(count_r: int)
    requires
        count_r >= 0,
    ensures
        0 < row_length(count_r) <= n_cells(count_r),
        count_r * count_r + count_r <= n_cells(count_r),
        2 * (count_r * count_r) <= n_cells(count_r),
{
    let row = row_length(count_r);
    assert(row <= row * row) by (nonlinear_arith)
        requires
            row >= 1,
    ;
    assert(count_r * count_r + count_r <= row * row) by (nonlinear_arith)
        requires
            row == 2 * count_r + 1,
            count_r >= 0,
    ;
    assert(2 * (count_r * count_r) <= row * row) by (nonlinear_arith)
        requires
            row == 2 * count_r + 1,
            count_r >= 0,
    ;
}

/// The cell `(x, y)` of the grid has a position in range, from which its
/// coordinates are found again.
pub proof fn lemma_position_in_range(count_r: int, x: int, y: int)
    requires
        count_r >= 0,
        -count_r <= x <= count_r,
        -count_r <= y <= count_r,
    ensures
        0 <= (y + count_r) * row_length(count_r) <= position(count_r, x, y) < n_cells(count_r),
        x_of(count_r, position(count_r, x, y)) == x,
        y_of(count_r, position(count_r, x, y)) == y,
{
    let row = row_length(count_r);
    let up = y + count_r;
    assert(0 <= up * row <= 2 * count_r * row) by (nonlinear_arith)
        requires
            0 <= up <= 2 * count_r,
            row > 0,
    ;
    assert(row * row == 2 * count_r * row + row) by (nonlinear_arith)
        requires
            row == 2 * count_r + 1,
    ;
    lemma_fundamental_div_mod_converse(position(count_r, x, y), row, up, x + count_r);
}

/// A position in range has coordinates in the grid, from which the position
/// is found again.
pub proof fn lemma_coordinates_in_range(count_r: int, p: int)
    requires
        count_r >= 0,
        0 <= p < n_cells(count_r),
    ensures
        -count_r <= x_of(count_r, p) <= count_r,
        -count_r <= y_of(count_r, p) <= count_r,
        position(count_r, x_of(count_r, p), y_of(count_r, p)) == p,
{
    let row = row_length(count_r);
    lemma_mod_bound(p, row);
    lemma_div_pos_is_pos(p, row);
    lemma_multiply_divide_lt(p, row, row);
    lemma_fundamental_div_mod(p, row);
    assert(row * (p / row) == (p / row) * row) by (nonlinear_arith);
}

/// The squares of coordinates in the grid stay below the number of cells.
pub proof fn lemma_square_in_range(count_r: int, x: int)
    requires
        count_r >= 0,
        -count_r <= x <= count_r,
    ensures
        0 <= x * x <= count_r * count_r,
{
    assert(0 <= x * x <= count_r * count_r) by (nonlinear_arith)
        requires
            -count_r <= x <= count_r,
    ;
}

/// What `included_below` lists: each position below the bound that belongs
/// to the city, at the index that counts those before it.
pub proof fn lemma_included_below(count_r: int, bound: int)
    requires
        bound >= 0,
    ensures
        included_below(count_r, bound).len() <= bound,
        forall|i: int|
            0 <= i < included_below(count_r, bound).len() ==> {
                let p = #[trigger] included_below(count_r, bound)[i];
                &&& 0 <= p < bound
                &&& included_at(count_r, p)
                &&& included_below(count_r, p).len() == i
            },
        forall|p: int|
            0 <= p < bound && included_at(count_r, p) ==> {
                let i = #[trigger] included_below(count_r, p).len() as int;
                &&& i < included_below(count_r, bound).len()
                &&& included_below(count_r, bound)[i] == p
            },
    decreases bound,
{
    if bound > 0 {
        lemma_included_below(count_r, bound - 1);
    }
}

} // verus!
