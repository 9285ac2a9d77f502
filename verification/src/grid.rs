//! Row-major tables: where a cell stands, and tables that are built row by row.

use vstd::arithmetic::div_mod::*;
use vstd::prelude::*;

verus! {

/// The cell in row `r` and column `c` of a table with `cols` columns.
pub open spec fn cell<T>(s: Seq<T>, cols: int, r: int, c: int) -> T {
    s[r * cols + c]
}

/// `s` is a table of `rows` rows and `cols` columns whose cells all satisfy `f`.
pub open spec fn is_grid<T>(
    s: Seq<T>,
    rows: int,
    cols: int,
    f: spec_fn(int, int, T) -> bool,
) -> bool {
    &&& s.len() == rows * cols
    &&& forall|r: int, c: int|
        0 <= r < rows && 0 <= c < cols ==> f(r, c, #[trigger] cell(s, cols, r, c))
}

/// A cell in range stands in the table, and its place tells its row and column.
pub proof fn cell_place(rows: int, cols: int, r: int, c: int)
    requires
        0 <= r < rows,
        0 <= c < cols,
    ensures
        0 <= r * cols + c < (r + 1) * cols <= rows * cols,
        (r * cols + c) / cols == r,
        (r * cols + c) % cols == c,
{
    assert(0 <= r * cols) by (nonlinear_arith)
        requires
            0 <= r,
            0 <= cols,
    ;
    assert((r + 1) * cols == r * cols + cols) by (nonlinear_arith);
    assert((r + 1) * cols <= rows * cols) by (nonlinear_arith)
        requires
            r + 1 <= rows,
            0 <= cols,
    ;
    lemma_fundamental_div_mod_converse(r * cols + c, cols, r, c);
}

/// Every place in the table is a cell.
pub proof fn place_cell(rows: int, cols: int, i: int)
    requires
        0 <= i < rows * cols,
        0 < cols,
    ensures
        0 <= i / cols < rows,
        0 <= i % cols < cols,
        (i / cols) * cols + i % cols == i,
{
    lemma_fundamental_div_mod(i, cols);
    lemma_mod_bound(i, cols);
    assert(0 <= i / cols < rows && (i / cols) * cols + i % cols == i) by (nonlinear_arith)
        requires
            0 <= i < rows * cols,
            0 < cols,
            i == cols * (i / cols) + i % cols,
            0 <= i % cols < cols,
    ;
}

/// The table without rows.
pub proof fn empty_grid<T>(cols: int, f: spec_fn(int, int, T) -> bool)
    ensures
        is_grid(Seq::<T>::empty(), 0, cols, f),
{
    assert(0 * cols == 0) by (nonlinear_arith);
}

/// A table with one more row at its end.
pub proof fn grid_push_row<T>(
    s: Seq<T>,
    rows: int,
    cols: int,
    f: spec_fn(int, int, T) -> bool,
    row: Seq<T>,
)
    requires
        0 <= rows,
        is_grid(s, rows, cols, f),
        row.len() == cols,
        forall|c: int| 0 <= c < cols ==> f(rows, c, #[trigger] row[c]),
    ensures
        is_grid(s + row, rows + 1, cols, f),
{
    let t = s + row;
    assert((rows + 1) * cols == rows * cols + cols) by (nonlinear_arith);
    assert forall|r: int, c: int| 0 <= r < rows + 1 && 0 <= c < cols implies f(
        r,
        c,
        #[trigger] cell(t, cols, r, c),
    ) by {
        cell_place(rows + 1, cols, r, c);
        if r < rows {
            cell_place(rows, cols, r, c);
            assert(cell(t, cols, r, c) == cell(s, cols, r, c));
        } else {
            assert(cell(t, cols, r, c) == row[c]);
        }
    }
}

} // verus!
