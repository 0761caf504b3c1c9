//! Vectors and grids of columns, expressions and cells: allocating, querying,
//! writing and reading them one entry after another.

use vstd::prelude::*;
use halo2_proofs::plonk::{Error, Expression};
use pasta_curves::Fp;
use crate::backend::{
    advice_column, assign_advice, cell_known, cell_place, cell_value, cells_advice, column_index,
    copy_advice, enable_equality, expr_poly, failure_of, query_advice, region_index, region_log,
    region_outcomes, same_backend, system_model, witness_value, AdviceColumn, GateCells,
    LayoutRegion, Place, Request, System, WitnessCell,
};
use crate::field::{grid_view, refines, value_view, values_view};
use crate::gate::advice;
use crate::tensor::has_shape;

verus! {

/// The column indices from `lo` up to, not including, `hi`.
pub open spec fn column_range(lo: nat, hi: nat) -> Set<nat> {
    Set::new(|c: nat| lo <= c < hi)
}

/// Whether each column of the vector is among the first `n` advice columns.
pub open spec fn columns_below(v: Seq<AdviceColumn>, n: nat) -> bool {
    forall|i: int| 0 <= i < v.len() ==> column_index(#[trigger] v[i]) < n
}

/// Whether each column of the grid is among the first `n` advice columns.
pub open spec fn grid_below(g: Seq<Vec<AdviceColumn>>, n: nat) -> bool {
    forall|i: int| 0 <= i < g.len() ==> columns_below((#[trigger] g[i])@, n)
}

/// The requests that write `values` to the cells of `cols` on the row at
/// `offset`, one after another.
pub open spec fn assigns(cols: Seq<AdviceColumn>, offset: nat, values: Seq<Option<nat>>) -> Seq<
    Request,
> {
    Seq::new(
        cols.len(),
        |i: int| Request::Assign { column: column_index(cols[i]), offset, value: values[i] },
    )
}

/// The requests that copy `cells` to the cells of `cols` on the row at
/// `offset`, one after another: each with the value that its cell carries and
/// the place where that cell lies.
pub open spec fn copies(cols: Seq<AdviceColumn>, offset: nat, cells: Seq<WitnessCell>) -> Seq<
    Request,
> {
    Seq::new(
        cols.len(),
        |i: int|
            Request::Copy {
                column: column_index(cols[i]),
                offset,
                value: cell_value(cells[i]),
                source: cell_place(cells[i]),
            },
    )
}

/// The requests that write the first `rows` rows of a grid of values to the
/// cells of a grid of columns on the row at `offset`, row after row.
pub open spec fn grid_assigns(
    grid: Seq<Vec<AdviceColumn>>,
    offset: nat,
    values: Seq<Seq<Option<nat>>>,
    rows: nat,
) -> Seq<Request>
    decreases rows,
{
    if rows == 0 {
        Seq::empty()
    } else {
        grid_assigns(grid, offset, values, (rows - 1) as nat) + assigns(
            grid[rows - 1]@,
            offset,
            values[rows - 1],
        )
    }
}

/// The requests that copy the first `rows` rows of a grid of cells to the
/// cells of a grid of columns on the row at `offset`, row after row.
pub open spec fn grid_copies(
    grid: Seq<Vec<AdviceColumn>>,
    offset: nat,
    cells: Seq<Vec<WitnessCell>>,
    rows: nat,
) -> Seq<Request>
    decreases rows,
{
    if rows == 0 {
        Seq::empty()
    } else {
        grid_copies(grid, offset, cells, (rows - 1) as nat) + copies(
            grid[rows - 1]@,
            offset,
            cells[rows - 1]@,
        )
    }
}

/// Whether each cell of the vector lies in the region of index `region`, in
/// the column at its place in `cols`, on the row at `offset`.
pub open spec fn cells_at(
    cells: Seq<WitnessCell>,
    region: nat,
    cols: Seq<AdviceColumn>,
    offset: nat,
) -> bool {
    cells.len() == cols.len() && forall|i: int|
        0 <= i < cells.len() ==> cell_place(#[trigger] cells[i]) == (Place {
            region,
            column: column_index(cols[i]),
            row: offset,
        })
}

/// Whether each cell of the grid lies in the region of index `region`, in the
/// column at its place in `grid`, on the row at `offset`.
pub open spec fn grid_at(
    g: Seq<Vec<WitnessCell>>,
    region: nat,
    grid: Seq<Vec<AdviceColumn>>,
    offset: nat,
) -> bool {
    g.len() == grid.len() && forall|i: int|
        0 <= i < g.len() ==> cells_at((#[trigger] g[i])@, region, grid[i]@, offset)
}

/// Whether each cell of the vector was written in a region of the region's
/// backend.
pub open spec fn cells_in(cells: Seq<WitnessCell>, r: LayoutRegion<'_>) -> bool {
    forall|i: int| 0 <= i < cells.len() ==> cell_known(#[trigger] cells[i], r)
}

/// Whether each cell of the grid was written in a region of the region's
/// backend.
pub open spec fn grid_in(g: Seq<Vec<WitnessCell>>, r: LayoutRegion<'_>) -> bool {
    forall|i: int| 0 <= i < g.len() ==> cells_in((#[trigger] g[i])@, r)
}

/// Whether the log `after` is the log `before` followed by the first of the
/// requests `asked`, in their order: none of them, some, or all.
pub open spec fn asked_of(before: Seq<Request>, after: Seq<Request>, asked: Seq<Request>) -> bool {
    before.len() <= after.len() <= before.len() + asked.len() && after == before + asked.take(
        after.len() - before.len(),
    )
}

/// A log as it was is the log followed by none of the requests.
pub proof fn lemma_asked_none(before: Seq<Request>, asked: Seq<Request>)
    ensures
        asked_of(before, before, asked),
{
    assert(before + asked.take(0) =~= before);
}

/// The first of some requests are the first of these requests and more.
pub proof fn lemma_asked_more(
    before: Seq<Request>,
    after: Seq<Request>,
    asked: Seq<Request>,
    more: Seq<Request>,
)
    requires
        asked_of(before, after, asked),
    ensures
        asked_of(before, after, asked + more),
{
    let k = after.len() - before.len();
    assert((asked + more).take(k) =~= asked.take(k));
}

/// All of some requests and then the first of further requests are the first
/// of both in a row.
pub proof fn lemma_asked_then(
    before: Seq<Request>,
    mid: Seq<Request>,
    after: Seq<Request>,
    asked: Seq<Request>,
    more: Seq<Request>,
)
    requires
        mid == before + asked,
        asked_of(mid, after, more),
    ensures
        asked_of(before, after, asked + more),
{
    let k = after.len() - mid.len();
    assert((asked + more).take(asked.len() + k) =~= asked + more.take(k));
    assert(before + (asked + more.take(k)) =~= (before + asked) + more.take(k));
}

/// The first of the writes of the first `m` rows of a grid are the first of
/// the writes of its first `n` rows, where `m` is no more than `n`.
pub proof fn lemma_asked_grid_assigns(
    before: Seq<Request>,
    after: Seq<Request>,
    grid: Seq<Vec<AdviceColumn>>,
    offset: nat,
    values: Seq<Seq<Option<nat>>>,
    m: nat,
    n: nat,
)
    requires
        m <= n,
        asked_of(before, after, grid_assigns(grid, offset, values, m)),
    ensures
        asked_of(before, after, grid_assigns(grid, offset, values, n)),
    decreases n,
{
    if m < n {
        lemma_asked_grid_assigns(before, after, grid, offset, values, m, (n - 1) as nat);
        lemma_asked_more(
            before,
            after,
            grid_assigns(grid, offset, values, (n - 1) as nat),
            assigns(grid[n - 1]@, offset, values[n - 1]),
        );
    }
}

/// The first of the copies of the first `m` rows of a grid are the first of
/// the copies of its first `n` rows, where `m` is no more than `n`.
pub proof fn lemma_asked_grid_copies(
    before: Seq<Request>,
    after: Seq<Request>,
    grid: Seq<Vec<AdviceColumn>>,
    offset: nat,
    cells: Seq<Vec<WitnessCell>>,
    m: nat,
    n: nat,
)
    requires
        m <= n,
        asked_of(before, after, grid_copies(grid, offset, cells, m)),
    ensures
        asked_of(before, after, grid_copies(grid, offset, cells, n)),
    decreases n,
{
    if m < n {
        lemma_asked_grid_copies(before, after, grid, offset, cells, m, (n - 1) as nat);
        lemma_asked_more(
            before,
            after,
            grid_copies(grid, offset, cells, (n - 1) as nat),
            copies(grid[n - 1]@, offset, cells[n - 1]@),
        );
    }
}

/// The answers to `n` requests of which each was accepted but the last, which
/// met `failure`: all accepted where `failure` is nothing.
pub open spec fn answers(n: nat, failure: Option<Error>) -> Seq<Option<Error>> {
    Seq::new(
        n,
        |i: int|
            if i == n - 1 {
                failure
            } else {
                None
            },
    )
}

/// Whether the outcomes `after` are the outcomes `before` followed by
/// answers of which each is an acceptance but the last, which is `failure`
/// where that is an error: a refusal is the last thing that happened.
pub open spec fn answered(
    before: Seq<Option<Error>>,
    after: Seq<Option<Error>>,
    failure: Option<Error>,
) -> bool {
    &&& before.len() <= after.len()
    &&& failure is Some ==> after.len() > before.len()
    &&& after == before + answers((after.len() - before.len()) as nat, failure)
}

/// Whether, from state `a` of a region to state `b`, the region was asked for
/// the first of the requests `asked`, in their order, and for nothing else,
/// and accepted each of them but the last, which it refused with `failure`
/// where that is an error.
pub open spec fn served(
    a: LayoutRegion<'_>,
    b: LayoutRegion<'_>,
    asked: Seq<Request>,
    failure: Option<Error>,
) -> bool {
    &&& asked_of(region_log(a), region_log(b), asked)
    &&& answered(region_outcomes(a), region_outcomes(b), failure)
    &&& region_log(b).len() - region_log(a).len() == region_outcomes(b).len() - region_outcomes(
        a,
    ).len()
}

/// A region that was asked for nothing was served none of the requests.
pub proof fn lemma_served_none(a: LayoutRegion<'_>, asked: Seq<Request>)
    ensures
        served(a, a, asked, None),
{
    lemma_asked_none(region_log(a), asked);
    assert(region_outcomes(a) + answers(0, None) =~= region_outcomes(a));
}

/// A region that was asked for one request was served that request.
pub proof fn lemma_served_one(
    a: LayoutRegion<'_>,
    b: LayoutRegion<'_>,
    request: Request,
    failure: Option<Error>,
)
    requires
        region_log(b) == region_log(a).push(request),
        region_outcomes(b) == region_outcomes(a).push(failure),
    ensures
        served(a, b, seq![request], failure),
        region_log(b) == region_log(a) + seq![request],
{
    assert(seq![request].take(1) =~= seq![request]);
    assert(region_log(a).push(request) =~= region_log(a) + seq![request]);
    assert(region_outcomes(a).push(failure) =~= region_outcomes(a) + answers(1, failure));
}

/// A region that accepted all of some requests, or refused one of them, was
/// asked for the first of them.
pub proof fn lemma_served_first(
    a: LayoutRegion<'_>,
    b: LayoutRegion<'_>,
    asked: Seq<Request>,
    failure: Option<Error>,
)
    requires
        served(a, b, asked, failure),
        asked.len() > 0,
        failure is Some || region_log(b) == region_log(a) + asked,
    ensures
        region_log(b).len() > region_log(a).len(),
        region_log(b)[region_log(a).len() as int] == asked[0],
{
    let n = region_log(b).len() - region_log(a).len();
    assert(region_log(b) == region_log(a) + asked.take(n));
    assert(n > 0);
    assert(asked.take(n)[0] == asked[0]);
}

/// The first of some requests are the first of these requests and more.
pub proof fn lemma_served_more(
    a: LayoutRegion<'_>,
    b: LayoutRegion<'_>,
    asked: Seq<Request>,
    more: Seq<Request>,
    failure: Option<Error>,
)
    requires
        served(a, b, asked, failure),
    ensures
        served(a, b, asked + more, failure),
{
    lemma_asked_more(region_log(a), region_log(b), asked, more);
}

/// All of some requests, each accepted, and then the first of further
/// requests are the first of both in a row.
pub proof fn lemma_served_then(
    a: LayoutRegion<'_>,
    m: LayoutRegion<'_>,
    b: LayoutRegion<'_>,
    asked: Seq<Request>,
    more: Seq<Request>,
    failure: Option<Error>,
)
    requires
        served(a, m, asked, None),
        region_log(m) == region_log(a) + asked,
        served(m, b, more, failure),
    ensures
        served(a, b, asked + more, failure),
{
    lemma_asked_then(region_log(a), region_log(m), region_log(b), asked, more);
    let first = (region_outcomes(m).len() - region_outcomes(a).len()) as nat;
    let second = (region_outcomes(b).len() - region_outcomes(m).len()) as nat;
    assert(answers(first, None) + answers(second, failure) =~= answers(first + second, failure));
    assert(region_outcomes(a) + (answers(first, None) + answers(second, failure))
        =~= region_outcomes(a) + answers(first, None) + answers(second, failure));
}

/// The first of the writes of the first `m` rows of a grid are the first of
/// the writes of its first `n` rows, where `m` is no more than `n`.
pub proof fn lemma_served_grid_assigns(
    a: LayoutRegion<'_>,
    b: LayoutRegion<'_>,
    grid: Seq<Vec<AdviceColumn>>,
    offset: nat,
    values: Seq<Seq<Option<nat>>>,
    m: nat,
    n: nat,
    failure: Option<Error>,
)
    requires
        m <= n,
        served(a, b, grid_assigns(grid, offset, values, m), failure),
    ensures
        served(a, b, grid_assigns(grid, offset, values, n), failure),
{
    lemma_asked_grid_assigns(region_log(a), region_log(b), grid, offset, values, m, n);
}

/// The first of the copies of the first `m` rows of a grid are the first of
/// the copies of its first `n` rows, where `m` is no more than `n`.
pub proof fn lemma_served_grid_copies(
    a: LayoutRegion<'_>,
    b: LayoutRegion<'_>,
    grid: Seq<Vec<AdviceColumn>>,
    offset: nat,
    cells: Seq<Vec<WitnessCell>>,
    m: nat,
    n: nat,
    failure: Option<Error>,
)
    requires
        m <= n,
        served(a, b, grid_copies(grid, offset, cells, m), failure),
    ensures
        served(a, b, grid_copies(grid, offset, cells, n), failure),
{
    lemma_asked_grid_copies(region_log(a), region_log(b), grid, offset, cells, m, n);
}

/// The value that each of a grid of cells carries.
pub open spec fn grid_cells(g: Seq<Vec<WitnessCell>>) -> Seq<Seq<Option<nat>>> {
    Seq::new(g.len(), |i: int| cells_view(g[i]@))
}

/// The value that each of a vector of cells carries.
pub open spec fn cells_view(v: Seq<WitnessCell>) -> Seq<Option<nat>> {
    Seq::new(v.len(), |i: int| cell_value(v[i]))
}

/// Whether each cell of `cells` carries no value or the value at its place in
/// `values`.
pub open spec fn cells_refine(cells: Seq<WitnessCell>, values: Seq<Option<nat>>) -> bool {
    cells.len() == values.len() && forall|i: int|
        0 <= i < cells.len() ==> refines(cell_value(#[trigger] cells[i]), values[i])
}

/// Allocates `n` new advice columns, with equality enabled on them if asked.
pub fn alloc_columns(sys: &mut System, n: usize, equality: bool) -> (r: Vec<AdviceColumn>)
    ensures
        r.len() == n,
        forall|i: int|
            0 <= i < n ==> column_index(#[trigger] r@[i]) == system_model(*old(sys)).advice + i,
        columns_below(r@, system_model(*final(sys)).advice),
        system_model(*final(sys)).advice == system_model(*old(sys)).advice + n,
        system_model(*final(sys)).selectors == system_model(*old(sys)).selectors,
        system_model(*final(sys)).gates == system_model(*old(sys)).gates,
        system_model(*final(sys)).equality == if equality {
            system_model(*old(sys)).equality.union(
                column_range(
                    system_model(*old(sys)).advice,
                    system_model(*old(sys)).advice + n as nat,
                ),
            )
        } else {
            system_model(*old(sys)).equality
        },
{
    let ghost start = system_model(*sys);
    let mut out: Vec<AdviceColumn> = Vec::new();
    let mut i: usize = 0;
    assert(start.equality.union(column_range(start.advice, start.advice)) =~= start.equality);
    while i < n
        invariant
            i <= n,
            out.len() == i,
            forall|k: int| 0 <= k < i ==> column_index(#[trigger] out@[k]) == start.advice + k,
            system_model(*sys).advice == start.advice + i,
            system_model(*sys).selectors == start.selectors,
            system_model(*sys).gates == start.gates,
            system_model(*sys).equality == if equality {
                start.equality.union(column_range(start.advice, start.advice + i as nat))
            } else {
                start.equality
            },
        decreases n - i,
    {
        let ghost before = system_model(*sys).equality;
        let c = advice_column(sys);
        if equality {
            enable_equality(sys, c);
            assert(before.insert(column_index(c)) =~= start.equality.union(
                column_range(start.advice, start.advice + (i + 1) as nat),
            ));
        }
        out.push(c);
        i = i + 1;
    }
    out
}

/// Allocates a grid of `rows` by `cols` new advice columns, row after row,
/// with equality enabled on them if asked.
pub fn alloc_grid(sys: &mut System, rows: usize, cols: usize, equality: bool) -> (r: Vec<
    Vec<AdviceColumn>,
>)
    ensures
        has_shape(r@, rows as nat, cols as nat),
        forall|i: int, j: int|
            0 <= i < rows && 0 <= j < cols ==> column_index(#[trigger] r@[i]@[j]) == system_model(
                *old(sys),
            ).advice + i * cols + j,
        grid_below(r@, system_model(*final(sys)).advice),
        system_model(*final(sys)).advice == system_model(*old(sys)).advice + rows * cols,
        system_model(*final(sys)).selectors == system_model(*old(sys)).selectors,
        system_model(*final(sys)).gates == system_model(*old(sys)).gates,
        system_model(*final(sys)).equality == if equality {
            system_model(*old(sys)).equality.union(
                column_range(
                    system_model(*old(sys)).advice,
                    (system_model(*old(sys)).advice + rows * cols) as nat,
                ),
            )
        } else {
            system_model(*old(sys)).equality
        },
{
    let ghost start = system_model(*sys);
    let mut out: Vec<Vec<AdviceColumn>> = Vec::new();
    let mut i: usize = 0;
    assert(0 * cols == 0);
    assert(start.equality.union(column_range(start.advice, start.advice)) =~= start.equality);
    while i < rows
        invariant
            i <= rows,
            out.len() == i,
            forall|a: int| 0 <= a < i ==> (#[trigger] out@[a]).len() == cols,
            forall|a: int, b: int|
                0 <= a < i && 0 <= b < cols ==> column_index(#[trigger] out@[a]@[b])
                    == start.advice + a * cols + b,
            grid_below(out@, system_model(*sys).advice),
            system_model(*sys).advice == start.advice + i * cols,
            system_model(*sys).selectors == start.selectors,
            system_model(*sys).gates == start.gates,
            system_model(*sys).equality == if equality {
                start.equality.union(
                    column_range(start.advice, (start.advice + i * cols) as nat),
                )
            } else {
                start.equality
            },
        decreases rows - i,
    {
        let row = alloc_columns(sys, cols, equality);
        assert(i * cols + cols == (i + 1) * cols) by (nonlinear_arith);
        proof {
            if equality {
                let mid = (start.advice + i * cols) as nat;
                assert(start.equality.union(column_range(start.advice, mid)).union(
                    column_range(mid, mid + cols as nat),
                ) =~= start.equality.union(
                    column_range(start.advice, (start.advice + (i + 1) * cols) as nat),
                )) by {
                    assert(i * cols >= 0) by (nonlinear_arith)
                        requires
                            i >= 0,
                            cols >= 0,
                    ;
                }
            }
        }
        out.push(row);
        i = i + 1;
    }
    out
}

/// Queries each of a vector of columns at `rotation`.
pub fn query_columns(cells: &mut GateCells<'_, '_>, cols: &Vec<AdviceColumn>, rotation: i32) -> (r:
    Vec<Expression<Fp>>)
    requires
        columns_below(cols@, cells_advice(*old(cells))),
    ensures
        cells_advice(*final(cells)) == cells_advice(*old(cells)),
        r.len() == cols.len(),
        forall|i: int|
            0 <= i < cols.len() ==> expr_poly(#[trigger] r@[i]) == advice(
                column_index(cols@[i]),
                rotation as int,
            ),
{
    let mut out: Vec<Expression<Fp>> = Vec::new();
    let mut i: usize = 0;
    while i < cols.len()
        invariant
            i <= cols.len(),
            out.len() == i,
            cells_advice(*cells) == cells_advice(*old(cells)),
            columns_below(cols@, cells_advice(*cells)),
            forall|k: int|
                0 <= k < i ==> expr_poly(#[trigger] out@[k]) == advice(
                    column_index(cols@[k]),
                    rotation as int,
                ),
        decreases cols.len() - i,
    {
        let e = query_advice(cells, cols[i], rotation);
        out.push(e);
        i = i + 1;
    }
    out
}

/// Queries each of a grid of columns at `rotation`.
pub fn query_grid(cells: &mut GateCells<'_, '_>, grid: &Vec<Vec<AdviceColumn>>, rotation: i32) -> (r:
    Vec<Vec<Expression<Fp>>>)
    requires
        grid_below(grid@, cells_advice(*old(cells))),
    ensures
        cells_advice(*final(cells)) == cells_advice(*old(cells)),
        r.len() == grid.len(),
        forall|i: int| 0 <= i < grid.len() ==> (#[trigger] r@[i]).len() == grid@[i].len(),
        forall|i: int, j: int|
            0 <= i < grid.len() && 0 <= j < grid@[i].len() ==> expr_poly(#[trigger] r@[i]@[j])
                == advice(column_index(grid@[i]@[j]), rotation as int),
{
    let mut out: Vec<Vec<Expression<Fp>>> = Vec::new();
    let mut i: usize = 0;
    while i < grid.len()
        invariant
            i <= grid.len(),
            out.len() == i,
            cells_advice(*cells) == cells_advice(*old(cells)),
            grid_below(grid@, cells_advice(*cells)),
            forall|a: int| 0 <= a < i ==> (#[trigger] out@[a]).len() == grid@[a].len(),
            forall|a: int, b: int|
                0 <= a < i && 0 <= b < grid@[a].len() ==> expr_poly(#[trigger] out@[a]@[b])
                    == advice(column_index(grid@[a]@[b]), rotation as int),
        decreases grid.len() - i,
    {
        let row = query_columns(cells, &grid[i], rotation);
        out.push(row);
        i = i + 1;
    }
    out
}

/// Writes each value to the cell of its column on the row at `offset`, one
/// column after another, and stops at the first write that the backend
/// refuses, with the backend's error. Each cell that comes back lies in its
/// column on that row.
pub fn assign_values(
    region: &mut LayoutRegion<'_>,
    cols: &Vec<AdviceColumn>,
    offset: usize,
    values: &Vec<Option<Fp>>,
) -> (r: Result<Vec<WitnessCell>, Error>)
    requires
        cols.len() == values.len(),
        offset < usize::MAX,
    ensures
        same_backend(*old(region), *final(region)),
        served(
            *old(region),
            *final(region),
            assigns(cols@, offset as nat, values_view(values@)),
            failure_of(r),
        ),
        r matches Ok(cells) ==> {
            &&& cells_in(cells@, *final(region))
            &&& cells_at(cells@, region_index(*final(region)), cols@, offset as nat)
            &&& cells_refine(cells@, values_view(values@))
            &&& region_log(*final(region)) == region_log(*old(region)) + assigns(
                cols@,
                offset as nat,
                values_view(values@),
            )
        },
{
    let ghost all = assigns(cols@, offset as nat, values_view(values@));
    let ghost log = region_log(*region);
    let ghost outcomes = region_outcomes(*region);
    let mut out: Vec<WitnessCell> = Vec::new();
    let mut i: usize = 0;
    proof {
        assert(log + all.take(0) =~= log);
        assert(outcomes + answers(0, None) =~= outcomes);
    }
    while i < cols.len()
        invariant
            offset < usize::MAX,
            same_backend(*old(region), *region),
            cells_in(out@, *region),
            i <= cols.len(),
            cols.len() == values.len(),
            out.len() == i,
            all == assigns(cols@, offset as nat, values_view(values@)),
            log == region_log(*old(region)),
            outcomes == region_outcomes(*old(region)),
            forall|k: int|
                0 <= k < i ==> refines(cell_value(#[trigger] out@[k]), value_view(values@[k])),
            forall|k: int|
                0 <= k < i ==> cell_place(#[trigger] out@[k]) == (Place {
                    region: region_index(*old(region)),
                    column: column_index(cols@[k]),
                    row: offset as nat,
                }),
            region_log(*region) == log + all.take(i as int),
            region_outcomes(*region) == outcomes + answers(i as nat, None),
        decreases cols.len() - i,
    {
        let ghost before = region_log(*region);
        let ghost answered_before = region_outcomes(*region);
        let written = assign_advice(region, cols[i], offset, values[i]);
        proof {
            assert(before.push(all[i as int]) =~= log + all.take(i + 1));
            assert(answered_before.push(failure_of(written)) =~= outcomes + answers(
                (i + 1) as nat,
                failure_of(written),
            ));
        }
        match written {
            Ok(cell) => {
                out.push(cell);
            },
            Err(e) => {
                return Err(e);
            },
        }
        i = i + 1;
    }
    assert(all.take(cols.len() as int) =~= all);
    Ok(out)
}

/// Writes each value of a grid to the cell of its column on the row at
/// `offset`, row after row, and stops at the first write that the backend
/// refuses, with the backend's error. Each cell that comes back lies in its
/// column on that row.
pub fn assign_grid(
    region: &mut LayoutRegion<'_>,
    grid: &Vec<Vec<AdviceColumn>>,
    offset: usize,
    values: &Vec<Vec<Option<Fp>>>,
) -> (r: Result<Vec<Vec<WitnessCell>>, Error>)
    requires
        grid.len() == values.len(),
        offset < usize::MAX,
        forall|i: int| 0 <= i < grid.len() ==> (#[trigger] grid@[i]).len() == values@[i].len(),
    ensures
        same_backend(*old(region), *final(region)),
        served(
            *old(region),
            *final(region),
            grid_assigns(grid@, offset as nat, grid_view(values@), grid@.len()),
            failure_of(r),
        ),
        r matches Ok(cells) ==> {
            &&& grid_in(cells@, *final(region))
            &&& grid_at(cells@, region_index(*final(region)), grid@, offset as nat)
            &&& cells.len() == values.len()
            &&& forall|i: int|
                0 <= i < values.len() ==> cells_refine(
                    (#[trigger] cells@[i])@,
                    values_view(values@[i]@),
                )
            &&& region_log(*final(region)) == region_log(*old(region)) + grid_assigns(
                grid@,
                offset as nat,
                grid_view(values@),
                grid@.len(),
            )
        },
{
    let mut out: Vec<Vec<WitnessCell>> = Vec::new();
    let mut i: usize = 0;
    proof {
        assert(region_log(*region) + Seq::<Request>::empty() =~= region_log(*region));
        lemma_served_none(*region, grid_assigns(grid@, offset as nat, grid_view(values@), 0));
    }
    while i < grid.len()
        invariant
            offset < usize::MAX,
            same_backend(*old(region), *region),
            grid_in(out@, *region),
            i <= grid.len(),
            grid.len() == values.len(),
            forall|k: int| 0 <= k < grid.len() ==> (#[trigger] grid@[k]).len() == values@[k].len(),
            out.len() == i,
            forall|k: int|
                0 <= k < i ==> cells_refine((#[trigger] out@[k])@, values_view(values@[k]@)),
            forall|k: int|
                0 <= k < i ==> cells_at(
                    (#[trigger] out@[k])@,
                    region_index(*old(region)),
                    grid@[k]@,
                    offset as nat,
                ),
            served(
                *old(region),
                *region,
                grid_assigns(grid@, offset as nat, grid_view(values@), i as nat),
                None,
            ),
            region_log(*region) == region_log(*old(region)) + grid_assigns(
                grid@,
                offset as nat,
                grid_view(values@),
                i as nat,
            ),
        decreases grid.len() - i,
    {
        let ghost done = grid_assigns(grid@, offset as nat, grid_view(values@), i as nat);
        let ghost step = assigns(grid@[i as int]@, offset as nat, grid_view(values@)[i as int]);
        let ghost mid = *region;
        let written = assign_values(region, &grid[i], offset, &values[i]);
        proof {
            lemma_served_then(*old(region), mid, *region, done, step, failure_of(written));
            lemma_served_grid_assigns(
                *old(region),
                *region,
                grid@,
                offset as nat,
                grid_view(values@),
                (i + 1) as nat,
                grid@.len(),
                failure_of(written),
            );
        }
        match written {
            Ok(row) => {
                proof {
                    assert((region_log(*old(region)) + done) + step =~= region_log(*old(region))
                        + (done + step));
                }
                out.push(row);
            },
            Err(e) => {
                return Err(e);
            },
        }
        i = i + 1;
    }
    Ok(out)
}

/// Copies each cell to the cell of its column on the row at `offset`, and
/// constrains the two equal, one column after another; stops at the first
/// copy that the backend refuses, with the backend's error. Each copy that
/// comes back lies in its column on that row.
pub fn copy_cells(
    cells: &Vec<WitnessCell>,
    region: &mut LayoutRegion<'_>,
    cols: &Vec<AdviceColumn>,
    offset: usize,
) -> (r: Result<Vec<WitnessCell>, Error>)
    requires
        cols.len() == cells.len(),
        offset < usize::MAX,
        cells_in(cells@, *old(region)),
    ensures
        same_backend(*old(region), *final(region)),
        served(
            *old(region),
            *final(region),
            copies(cols@, offset as nat, cells@),
            failure_of(r),
        ),
        r matches Ok(made) ==> {
            &&& cells_in(made@, *final(region))
            &&& cells_at(made@, region_index(*final(region)), cols@, offset as nat)
            &&& cells_refine(made@, cells_view(cells@))
            &&& region_log(*final(region)) == region_log(*old(region)) + copies(
                cols@,
                offset as nat,
                cells@,
            )
        },
{
    let ghost all = copies(cols@, offset as nat, cells@);
    let ghost log = region_log(*region);
    let ghost outcomes = region_outcomes(*region);
    let mut out: Vec<WitnessCell> = Vec::new();
    let mut i: usize = 0;
    proof {
        assert(log + all.take(0) =~= log);
        assert(outcomes + answers(0, None) =~= outcomes);
    }
    while i < cols.len()
        invariant
            offset < usize::MAX,
            same_backend(*old(region), *region),
            cells_in(out@, *region),
            cells_in(cells@, *region),
            i <= cols.len(),
            cols.len() == cells.len(),
            out.len() == i,
            all == copies(cols@, offset as nat, cells@),
            log == region_log(*old(region)),
            outcomes == region_outcomes(*old(region)),
            forall|k: int|
                0 <= k < i ==> refines(cell_value(#[trigger] out@[k]), cell_value(cells@[k])),
            forall|k: int|
                0 <= k < i ==> cell_place(#[trigger] out@[k]) == (Place {
                    region: region_index(*old(region)),
                    column: column_index(cols@[k]),
                    row: offset as nat,
                }),
            region_log(*region) == log + all.take(i as int),
            region_outcomes(*region) == outcomes + answers(i as nat, None),
        decreases cols.len() - i,
    {
        let ghost before = region_log(*region);
        let ghost answered_before = region_outcomes(*region);
        let copied = copy_advice(&cells[i], region, cols[i], offset);
        proof {
            assert(before.push(all[i as int]) =~= log + all.take(i + 1));
            assert(answered_before.push(failure_of(copied)) =~= outcomes + answers(
                (i + 1) as nat,
                failure_of(copied),
            ));
        }
        match copied {
            Ok(copy) => {
                out.push(copy);
            },
            Err(e) => {
                return Err(e);
            },
        }
        i = i + 1;
    }
    assert(all.take(cols.len() as int) =~= all);
    Ok(out)
}

/// Copies each cell of a grid to the cell of its column on the row at
/// `offset`, and constrains the two equal, row after row; stops at the first
/// copy that the backend refuses, with the backend's error. Each copy that
/// comes back lies in its column on that row.
pub fn copy_grid(
    cells: &Vec<Vec<WitnessCell>>,
    region: &mut LayoutRegion<'_>,
    grid: &Vec<Vec<AdviceColumn>>,
    offset: usize,
) -> (r: Result<Vec<Vec<WitnessCell>>, Error>)
    requires
        grid.len() == cells.len(),
        offset < usize::MAX,
        grid_in(cells@, *old(region)),
        forall|i: int| 0 <= i < grid.len() ==> (#[trigger] grid@[i]).len() == cells@[i].len(),
    ensures
        same_backend(*old(region), *final(region)),
        served(
            *old(region),
            *final(region),
            grid_copies(grid@, offset as nat, cells@, grid@.len()),
            failure_of(r),
        ),
        r matches Ok(made) ==> {
            &&& grid_in(made@, *final(region))
            &&& grid_at(made@, region_index(*final(region)), grid@, offset as nat)
            &&& made.len() == cells.len()
            &&& forall|i: int|
                0 <= i < cells.len() ==> cells_refine(
                    (#[trigger] made@[i])@,
                    cells_view(cells@[i]@),
                )
            &&& region_log(*final(region)) == region_log(*old(region)) + grid_copies(
                grid@,
                offset as nat,
                cells@,
                grid@.len(),
            )
        },
{
    let mut out: Vec<Vec<WitnessCell>> = Vec::new();
    let mut i: usize = 0;
    proof {
        assert(region_log(*region) + Seq::<Request>::empty() =~= region_log(*region));
        lemma_served_none(*region, grid_copies(grid@, offset as nat, cells@, 0));
    }
    while i < grid.len()
        invariant
            offset < usize::MAX,
            same_backend(*old(region), *region),
            grid_in(out@, *region),
            grid_in(cells@, *region),
            i <= grid.len(),
            grid.len() == cells.len(),
            forall|k: int| 0 <= k < grid.len() ==> (#[trigger] grid@[k]).len() == cells@[k].len(),
            out.len() == i,
            forall|k: int|
                0 <= k < i ==> cells_refine((#[trigger] out@[k])@, cells_view(cells@[k]@)),
            forall|k: int|
                0 <= k < i ==> cells_at(
                    (#[trigger] out@[k])@,
                    region_index(*old(region)),
                    grid@[k]@,
                    offset as nat,
                ),
            served(*old(region), *region, grid_copies(grid@, offset as nat, cells@, i as nat), None),
            region_log(*region) == region_log(*old(region)) + grid_copies(
                grid@,
                offset as nat,
                cells@,
                i as nat,
            ),
        decreases grid.len() - i,
    {
        let ghost done = grid_copies(grid@, offset as nat, cells@, i as nat);
        let ghost step = copies(grid@[i as int]@, offset as nat, cells@[i as int]@);
        let ghost mid = *region;
        let copied = copy_cells(&cells[i], region, &grid[i], offset);
        proof {
            lemma_served_then(*old(region), mid, *region, done, step, failure_of(copied));
            lemma_served_grid_copies(
                *old(region),
                *region,
                grid@,
                offset as nat,
                cells@,
                (i + 1) as nat,
                grid@.len(),
                failure_of(copied),
            );
        }
        match copied {
            Ok(row) => {
                proof {
                    assert((region_log(*old(region)) + done) + step =~= region_log(*old(region))
                        + (done + step));
                }
                out.push(row);
            },
            Err(e) => {
                return Err(e);
            },
        }
        i = i + 1;
    }
    Ok(out)
}

/// The value that each cell carries.
pub fn read_cells(cells: &Vec<WitnessCell>) -> (r: Vec<Option<Fp>>)
    ensures
        values_view(r@) == cells_view(cells@),
{
    let mut out: Vec<Option<Fp>> = Vec::new();
    let mut i: usize = 0;
    while i < cells.len()
        invariant
            i <= cells.len(),
            out.len() == i,
            forall|k: int| 0 <= k < i ==> value_view(#[trigger] out@[k]) == cell_value(cells@[k]),
        decreases cells.len() - i,
    {
        out.push(witness_value(&cells[i]));
        i = i + 1;
    }
    assert(values_view(out@) =~= cells_view(cells@));
    out
}

/// The value that each cell of a grid carries.
pub fn read_grid(cells: &Vec<Vec<WitnessCell>>) -> (r: Vec<Vec<Option<Fp>>>)
    ensures
        r.len() == cells.len(),
        forall|i: int|
            0 <= i < cells.len() ==> values_view((#[trigger] r@[i])@) == cells_view(cells@[i]@),
{
    let mut out: Vec<Vec<Option<Fp>>> = Vec::new();
    let mut i: usize = 0;
    while i < cells.len()
        invariant
            i <= cells.len(),
            out.len() == i,
            forall|k: int|
                0 <= k < i ==> values_view((#[trigger] out@[k])@) == cells_view(cells@[k]@),
        decreases cells.len() - i,
    {
        out.push(read_cells(&cells[i]));
        i = i + 1;
    }
    out
}

} // verus!
