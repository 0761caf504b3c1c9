//! The witness that a layer's requests describe: what a row of the table
//! holds once every value asked for has been written.

use vstd::prelude::*;
use crate::backend::{cell_value, column_index, AdviceColumn, Request, WitnessCell};
use crate::cells::{assigns, copies, grid_assigns, grid_copies};
use crate::field::modulus;
use crate::gate::Row;

verus! {

/// Whether the table, read from row `base`, holds what the request asks for:
/// the selector is set on the row asked for, the cell written or copied to
/// holds the residue of the value, where a value was known.
pub open spec fn holds(row: Row, req: Request, base: nat) -> bool {
    match req {
        Request::Enable { selector, offset } => offset == base ==> (row.selector)(selector),
        Request::Assign { column, offset, value } => offset >= base && value is Some ==> (
        row.advice)(column, offset - base) % modulus() == value->0 % modulus(),
        Request::Copy { column, offset, value, .. } => offset >= base && value is Some ==> (
        row.advice)(column, offset - base) % modulus() == value->0 % modulus(),
    }
}

/// Whether the table, read from row `base`, holds what each of the requests
/// asks for.
pub open spec fn agrees(row: Row, reqs: Seq<Request>, base: nat) -> bool {
    forall|k: int| 0 <= k < reqs.len() ==> holds(row, #[trigger] reqs[k], base)
}

/// A table holds what two runs of requests ask for exactly when it holds what
/// each of them asks for.
pub proof fn lemma_agrees_concat(row: Row, a: Seq<Request>, b: Seq<Request>, base: nat)
    ensures
        agrees(row, a + b, base) <==> agrees(row, a, base) && agrees(row, b, base),
{
    if agrees(row, a + b, base) {
        assert forall|k: int| 0 <= k < a.len() implies holds(row, #[trigger] a[k], base) by {
            assert((a + b)[k] == a[k]);
        }
        assert forall|k: int| 0 <= k < b.len() implies holds(row, #[trigger] b[k], base) by {
            assert((a + b)[a.len() + k] == b[k]);
        }
    }
    if agrees(row, a, base) && agrees(row, b, base) {
        assert forall|k: int| 0 <= k < (a + b).len() implies holds(
            row,
            #[trigger] (a + b)[k],
            base,
        ) by {
            if k < a.len() {
                assert((a + b)[k] == a[k]);
            } else {
                assert((a + b)[k] == b[k - a.len()]);
            }
        }
    }
}

/// A table that holds what a run of writes asks for holds each known value in
/// the cell of its column.
pub proof fn lemma_agrees_assigns(
    row: Row,
    cols: Seq<AdviceColumn>,
    offset: nat,
    values: Seq<Option<nat>>,
    base: nat,
    i: int,
)
    requires
        agrees(row, assigns(cols, offset, values), base),
        0 <= i < cols.len(),
        offset >= base,
        values[i] is Some,
    ensures
        (row.advice)(column_index(cols[i]), offset - base) % modulus() == values[i]->0 % modulus(),
{
    assert(holds(row, assigns(cols, offset, values)[i], base));
}

/// A table that holds what a run of copies asks for holds each known value in
/// the cell of its column.
pub proof fn lemma_agrees_copies(
    row: Row,
    cols: Seq<AdviceColumn>,
    offset: nat,
    cells: Seq<WitnessCell>,
    base: nat,
    i: int,
)
    requires
        agrees(row, copies(cols, offset, cells), base),
        0 <= i < cols.len(),
        offset >= base,
        cell_value(cells[i]) is Some,
    ensures
        (row.advice)(column_index(cols[i]), offset - base) % modulus() == cell_value(cells[i])->0
            % modulus(),
{
    assert(holds(row, copies(cols, offset, cells)[i], base));
}

/// A table that holds what the writes of a grid ask for holds each known
/// value in the cell of its column.
pub proof fn lemma_agrees_grid(
    row: Row,
    grid: Seq<Vec<AdviceColumn>>,
    offset: nat,
    values: Seq<Seq<Option<nat>>>,
    rows: nat,
    base: nat,
    i: int,
    j: int,
)
    requires
        agrees(row, grid_assigns(grid, offset, values, rows), base),
        0 <= i < rows,
        0 <= j < grid[i]@.len(),
        offset >= base,
        values[i][j] is Some,
    ensures
        (row.advice)(column_index(grid[i]@[j]), offset - base) % modulus() == values[i][j]->0
            % modulus(),
    decreases rows,
{
    let before = grid_assigns(grid, offset, values, (rows - 1) as nat);
    let last = assigns(grid[rows - 1]@, offset, values[rows - 1]);
    lemma_agrees_concat(row, before, last, base);
    if i == rows - 1 {
        lemma_agrees_assigns(row, grid[i]@, offset, values[i], base, j);
    } else {
        lemma_agrees_grid(row, grid, offset, values, (rows - 1) as nat, base, i, j);
    }
}

/// A table that holds what the copies of a grid ask for holds each known
/// value in the cell of its column.
pub proof fn lemma_agrees_grid_copies(
    row: Row,
    grid: Seq<Vec<AdviceColumn>>,
    offset: nat,
    cells: Seq<Vec<WitnessCell>>,
    rows: nat,
    base: nat,
    i: int,
    j: int,
)
    requires
        agrees(row, grid_copies(grid, offset, cells, rows), base),
        0 <= i < rows,
        0 <= j < grid[i]@.len(),
        offset >= base,
        cell_value(cells[i]@[j]) is Some,
    ensures
        (row.advice)(column_index(grid[i]@[j]), offset - base) % modulus() == cell_value(
            cells[i]@[j],
        )->0 % modulus(),
    decreases rows,
{
    let before = grid_copies(grid, offset, cells, (rows - 1) as nat);
    let last = copies(grid[rows - 1]@, offset, cells[rows - 1]@);
    lemma_agrees_concat(row, before, last, base);
    if i == rows - 1 {
        lemma_agrees_copies(row, grid[i]@, offset, cells[i]@, base, j);
    } else {
        lemma_agrees_grid_copies(row, grid, offset, cells, (rows - 1) as nat, base, i, j);
    }
}

/// A table, read from row `base`, holds what the writes of a grid ask for
/// when the cell of each column of the grid holds, on the row written to, the
/// value at its place.
pub proof fn lemma_grid_held(
    row: Row,
    grid: Seq<Vec<AdviceColumn>>,
    offset: nat,
    values: Seq<Seq<Option<nat>>>,
    rows: nat,
    base: nat,
)
    requires
        offset >= base,
        forall|i: int, j: int|
            0 <= i < rows && 0 <= j < grid[i]@.len() && values[i][j] is Some ==> (row.advice)(
                column_index(#[trigger] grid[i]@[j]),
                offset - base,
            ) % modulus() == values[i][j]->0 % modulus(),
    ensures
        agrees(row, grid_assigns(grid, offset, values, rows), base),
    decreases rows,
{
    if rows > 0 {
        lemma_grid_held(row, grid, offset, values, (rows - 1) as nat, base);
        let i = rows - 1;
        let last = assigns(grid[i]@, offset, values[i]);
        assert forall|j: int| 0 <= j < last.len() implies holds(row, #[trigger] last[j], base) by {
            if values[i][j] is Some {
                assert((row.advice)(column_index(grid[i]@[j]), offset - base) % modulus()
                    == values[i][j]->0 % modulus());
            }
        }
        lemma_agrees_concat(
            row,
            grid_assigns(grid, offset, values, (rows - 1) as nat),
            last,
            base,
        );
    }
}

} // verus!
