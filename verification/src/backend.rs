//! The proving backend: the constraint system that a layer is configured on,
//! the region that its witness is written to, and what the library relies on
//! of each call into them.

use vstd::prelude::*;
use halo2_proofs::circuit::{AssignedCell, Region, Value};
use halo2_proofs::plonk::{
    Advice, Assigned, Column, ConstraintSystem, Error, Expression, Selector, VirtualCells,
};
use halo2_proofs::poly::Rotation;
use pasta_curves::Fp;
use crate::field::fp_value;
use crate::gate::{has_simple_selector, Poly};

verus! {

/// `halo2_proofs::plonk::Selector`: the enable flag of a gate, opaque here.
#[verifier::external_type_specification]
#[verifier::external_body]
pub struct ExSelector(Selector);

/// `halo2_proofs::plonk::Expression`: a constraint expression, opaque here.
#[verifier::external_type_specification]
#[verifier::external_body]
#[verifier::reject_recursive_types(F)]
pub struct ExExpression<F>(Expression<F>);

/// An advice column of the constraint system: holds a
/// `halo2_proofs::plonk::Column<Advice>`.
#[verifier::external_body]
#[derive(Debug)]
pub struct AdviceColumn {
    pub inner: Column<Advice>,
}

impl Clone for AdviceColumn {
    /// `Column::clone`: the same column.
    #[verifier::external_body]
    fn clone(&self) -> (r: Self)
        ensures
            r == *self,
    {
        AdviceColumn { inner: self.inner }
    }
}

impl Copy for AdviceColumn {

}

/// The constraint system under construction: holds a
/// `halo2_proofs::plonk::ConstraintSystem<Fp>`.
#[verifier::external_body]
pub struct System {
    pub inner: ConstraintSystem<Fp>,
}

/// The cells that a gate under construction may query: holds a
/// `halo2_proofs::plonk::VirtualCells<Fp>`.
#[verifier::external_body]
pub struct GateCells<'a, 'b> {
    pub inner: &'a mut VirtualCells<'b, Fp>,
}

/// A region of rows that a layer writes its witness to: holds a
/// `halo2_proofs::circuit::Region<Fp>`.
#[verifier::external_body]
pub struct LayoutRegion<'r> {
    pub inner: Region<'r, Fp>,
}

/// A cell that has been written, with its value where the backend keeps one:
/// holds a `halo2_proofs::circuit::AssignedCell<Assigned<Fp>, Fp>`.
#[verifier::external_body]
#[derive(Debug)]
pub struct WitnessCell {
    pub inner: AssignedCell<Assigned<Fp>, Fp>,
}

impl Clone for WitnessCell {
    /// `AssignedCell::clone`: a handle to the same cell: the same value, in
    /// the same place.
    #[verifier::external_body]
    fn clone(&self) -> (r: Self)
        ensures
            cell_value(r) == cell_value(*self),
            cell_region(r) == cell_region(*self),
            cell_column(r) == cell_column(*self),
            cell_row(r) == cell_row(*self),
    {
        WitnessCell { inner: self.inner.clone() }
    }
}

/// What the library tracks of a constraint system: how many advice columns and
/// selectors it has handed out, the advice columns on which equality is
/// enabled, and the polynomials of each gate.
pub struct SystemModel {
    pub advice: nat,
    pub selectors: nat,
    pub equality: Set<nat>,
    pub gates: Seq<Seq<Poly>>,
}

/// What a layer asks of a region: to set a selector on a row, to write a
/// value to the cell of a column on a row, or to copy the value of a cell
/// there, from the place where that cell lies, and constrain the two equal.
/// Rows are named by their offset in the region.
pub enum Request {
    Enable { selector: nat, offset: nat },
    Assign { column: nat, offset: nat, value: Option<nat> },
    Copy { column: nat, offset: nat, value: Option<nat>, source: Place },
}

/// Where a cell lies: the index of its region among the regions of its
/// backend, the index of its column, and its row, as an offset in the region.
pub struct Place {
    pub region: nat,
    pub column: nat,
    pub row: nat,
}

/// The index of an advice column among the advice columns.
pub uninterp spec fn column_index(c: AdviceColumn) -> nat;

/// The index of a selector, and whether it is a simple one.
pub uninterp spec fn selector_view(s: Selector) -> (nat, bool);

/// The tracked state of a constraint system.
pub uninterp spec fn system_model(s: System) -> SystemModel;

/// The number of advice columns of the constraint system whose cells these
/// are.
pub uninterp spec fn cells_advice(c: GateCells<'_, '_>) -> nat;

/// The polynomial that an expression stands for.
pub uninterp spec fn expr_poly(e: Expression<Fp>) -> Poly;

/// The value that a written cell carries, where it carries one.
pub uninterp spec fn cell_value(c: WitnessCell) -> Option<nat>;

/// What has been asked of a region so far, in the order of the calls.
pub uninterp spec fn region_log(r: LayoutRegion<'_>) -> Seq<Request>;

/// The number of selectors of the constraint system that the region's backend
/// lays out.
pub uninterp spec fn region_selectors(r: LayoutRegion<'_>) -> nat;

/// The number of regions that the region's backend has opened so far, this
/// region among them.
pub uninterp spec fn region_count(r: LayoutRegion<'_>) -> nat;

/// The index of the region among the regions of its backend.
pub uninterp spec fn region_index(r: LayoutRegion<'_>) -> nat;

/// The index, among the regions of its backend, of the region that the cell
/// was written in.
pub uninterp spec fn cell_region(c: WitnessCell) -> nat;

/// The index of the column that the cell lies in.
pub uninterp spec fn cell_column(c: WitnessCell) -> nat;

/// The row that the cell lies on, as an offset in its region.
pub uninterp spec fn cell_row(c: WitnessCell) -> nat;

/// What the backend answered to each request made of a region so far, in the
/// order of the calls: nothing where it accepted the request, its error
/// where it refused.
pub uninterp spec fn region_outcomes(r: LayoutRegion<'_>) -> Seq<Option<Error>>;

/// Where the cell lies.
pub open spec fn cell_place(c: WitnessCell) -> Place {
    Place { region: cell_region(c), column: cell_column(c), row: cell_row(c) }
}

/// The error of a result of the backend, if it is one.
pub open spec fn failure_of<T>(r: Result<T, Error>) -> Option<Error> {
    match r {
        Ok(_) => None,
        Err(e) => Some(e),
    }
}

/// Whether two states of a region are states of one region of one backend:
/// as many selectors, as many regions, the same index.
pub open spec fn same_backend(a: LayoutRegion<'_>, b: LayoutRegion<'_>) -> bool {
    &&& region_selectors(a) == region_selectors(b)
    &&& region_count(a) == region_count(b)
    &&& region_index(a) == region_index(b)
}

/// Whether the selector is one of the constraint system that the region's
/// backend lays out.
pub open spec fn selector_known(s: Selector, r: LayoutRegion<'_>) -> bool {
    selector_view(s).0 < region_selectors(r)
}

/// Whether the cell was written in a region of the region's backend.
pub open spec fn cell_known(c: WitnessCell, r: LayoutRegion<'_>) -> bool {
    cell_region(c) < region_count(r)
}

/// `Selector::clone`: the same selector.
pub assume_specification[ <halo2_proofs::plonk::Selector as Clone>::clone ](
    s: &halo2_proofs::plonk::Selector,
) -> (r: halo2_proofs::plonk::Selector)
    ensures
        r == *s,
;

/// `ConstraintSystem::advice_column`: the new column takes the next index.
#[verifier::external_body]
pub(crate) fn advice_column(sys: &mut System) -> (c: AdviceColumn)
    ensures
        column_index(c) == system_model(*old(sys)).advice,
        system_model(*final(sys)) == (SystemModel {
            advice: system_model(*old(sys)).advice + 1,
            ..system_model(*old(sys))
        }),
{
    AdviceColumn { inner: sys.inner.advice_column() }
}

/// `ConstraintSystem::enable_equality`: the column joins those on which cells
/// can be constrained equal. The backend panics on a column that the
/// constraint system has not handed out.
#[verifier::external_body]
pub(crate) fn enable_equality(sys: &mut System, c: AdviceColumn)
    requires
        column_index(c) < system_model(*old(sys)).advice,
    ensures
        system_model(*final(sys)) == (SystemModel {
            equality: system_model(*old(sys)).equality.insert(column_index(c)),
            ..system_model(*old(sys))
        }),
{
    sys.inner.enable_equality(c.inner)
}

/// `ConstraintSystem::selector`: a new simple selector with the next index.
#[verifier::external_body]
pub(crate) fn new_selector(sys: &mut System) -> (s: Selector)
    ensures
        selector_view(s) == (system_model(*old(sys)).selectors, true),
        system_model(*final(sys)) == (SystemModel {
            selectors: system_model(*old(sys)).selectors + 1,
            ..system_model(*old(sys))
        }),
{
    sys.inner.selector()
}

/// `VirtualCells::query_advice`: the expression for the cell of `c` at
/// `rotation` rows from the current one. The backend panics on a column that
/// the constraint system has not handed out.
#[verifier::external_body]
pub(crate) fn query_advice(cells: &mut GateCells<'_, '_>, c: AdviceColumn, rotation: i32) -> (e:
    Expression<Fp>)
    requires
        column_index(c) < cells_advice(*old(cells)),
    ensures
        expr_poly(e) == (Poly::Advice { column: column_index(c), rotation: rotation as int }),
        cells_advice(*final(cells)) == cells_advice(*old(cells)),
{
    cells.inner.query_advice(c.inner, Rotation(rotation))
}

/// `Expression::Constant`: the constant polynomial.
#[verifier::external_body]
pub(crate) fn expr_constant(x: Fp) -> (e: Expression<Fp>)
    ensures
        expr_poly(e) == Poly::Constant(fp_value(x)),
{
    Expression::Constant(x)
}

/// `Expression::clone`: the same expression again.
#[verifier::external_body]
pub(crate) fn expr_clone(a: &Expression<Fp>) -> (e: Expression<Fp>)
    ensures
        expr_poly(e) == expr_poly(*a),
{
    a.clone()
}

/// `-Expression`: the negated polynomial.
#[verifier::external_body]
pub(crate) fn expr_neg(a: Expression<Fp>) -> (e: Expression<Fp>)
    ensures
        expr_poly(e) == Poly::Negated(Box::new(expr_poly(a))),
{
    -a
}

/// `Expression + Expression`: the sum. The backend panics on a simple selector
/// in either operand.
#[verifier::external_body]
pub(crate) fn expr_add(a: Expression<Fp>, b: Expression<Fp>) -> (e: Expression<Fp>)
    requires
        !has_simple_selector(expr_poly(a)),
        !has_simple_selector(expr_poly(b)),
    ensures
        expr_poly(e) == Poly::Sum(Box::new(expr_poly(a)), Box::new(expr_poly(b))),
{
    a + b
}

/// `Expression * Expression`: the product. The backend panics where both
/// operands hold a simple selector.
#[verifier::external_body]
pub(crate) fn expr_mul(a: Expression<Fp>, b: Expression<Fp>) -> (e: Expression<Fp>)
    requires
        !has_simple_selector(expr_poly(a)) || !has_simple_selector(expr_poly(b)),
    ensures
        expr_poly(e) == Poly::Product(Box::new(expr_poly(a)), Box::new(expr_poly(b))),
{
    a * b
}

/// `Selector::enable`: asks the region to set the selector on the row at
/// `offset`. The backend's answer joins the region's outcomes. Backends index
/// their table of selectors by the selector's index and panic on a selector
/// of another constraint system; they count rows as `offset + 1`, which the
/// largest offset does not allow.
#[verifier::external_body]
pub(crate) fn enable_selector(region: &mut LayoutRegion<'_>, s: &Selector, offset: usize) -> (r:
    Result<(), Error>)
    requires
        selector_known(*s, *old(region)),
        offset < usize::MAX,
    ensures
        region_log(*final(region)) == region_log(*old(region)).push(
            Request::Enable { selector: selector_view(*s).0, offset: offset as nat },
        ),
        region_outcomes(*final(region)) == region_outcomes(*old(region)).push(failure_of(r)),
        region_selectors(*final(region)) == region_selectors(*old(region)),
        region_count(*final(region)) == region_count(*old(region)),
        region_index(*final(region)) == region_index(*old(region)),
{
    s.enable(&mut region.inner, offset)
}

/// `Region::assign_advice`: asks the region to write `value` to the cell of
/// `c` at `offset`. The cell that comes back carries that value, or none where
/// the backend did not ask for it, and lies in this region, in that column on
/// that row. The backend's answer joins the region's outcomes. Backends count
/// rows as `offset + 1`, which the largest offset does not allow.
#[verifier::external_body]
pub(crate) fn assign_advice(
    region: &mut LayoutRegion<'_>,
    c: AdviceColumn,
    offset: usize,
    value: Option<Fp>,
) -> (r: Result<WitnessCell, Error>)
    requires
        offset < usize::MAX,
    ensures
        r matches Ok(cell) ==> cell_value(cell) is None || (value matches Some(x) && cell_value(
            cell,
        ) == Some(fp_value(x))),
        r matches Ok(cell) ==> cell_region(cell) < region_count(*final(region)),
        r matches Ok(cell) ==> cell_place(cell) == (Place {
            region: region_index(*final(region)),
            column: column_index(c),
            row: offset as nat,
        }),
        region_log(*final(region)) == region_log(*old(region)).push(
            Request::Assign {
                column: column_index(c),
                offset: offset as nat,
                value: crate::field::value_view(value),
            },
        ),
        region_outcomes(*final(region)) == region_outcomes(*old(region)).push(failure_of(r)),
        region_selectors(*final(region)) == region_selectors(*old(region)),
        region_count(*final(region)) == region_count(*old(region)),
        region_index(*final(region)) == region_index(*old(region)),
{
    let v = match value {
        Some(x) => Value::known(Assigned::from(x)),
        None => Value::unknown(),
    };
    Ok(WitnessCell { inner: region.inner.assign_advice(|| "", c.inner, offset, || v)? })
}

/// `AssignedCell::copy_advice`: asks the region to write the value of `cell`
/// to the cell of `c` at `offset` and to constrain the two equal. The cell
/// that comes back carries the value of `cell`, or none, and lies in that
/// column on that row. The backend's answer joins the region's outcomes: the
/// error of the write or of the constraint, whichever was refused. Backends
/// index their list of regions by the region of `cell` and panic on a cell
/// of another backend; they count rows as `offset + 1`, which the largest
/// offset does not allow.
#[verifier::external_body]
pub(crate) fn copy_advice(
    cell: &WitnessCell,
    region: &mut LayoutRegion<'_>,
    c: AdviceColumn,
    offset: usize,
) -> (r: Result<WitnessCell, Error>)
    requires
        cell_known(*cell, *old(region)),
        offset < usize::MAX,
    ensures
        r matches Ok(copy) ==> cell_value(copy) is None || cell_value(copy) == cell_value(*cell),
        r matches Ok(copy) ==> cell_region(copy) < region_count(*final(region)),
        r matches Ok(copy) ==> cell_place(copy) == (Place {
            region: region_index(*final(region)),
            column: column_index(c),
            row: offset as nat,
        }),
        region_log(*final(region)) == region_log(*old(region)).push(
            Request::Copy {
                column: column_index(c),
                offset: offset as nat,
                value: cell_value(*cell),
                source: cell_place(*cell),
            },
        ),
        region_outcomes(*final(region)) == region_outcomes(*old(region)).push(failure_of(r)),
        region_selectors(*final(region)) == region_selectors(*old(region)),
        region_count(*final(region)) == region_count(*old(region)),
        region_index(*final(region)) == region_index(*old(region)),
{
    Ok(WitnessCell { inner: cell.inner.copy_advice(|| "", &mut region.inner, c.inner, offset)? })
}

/// `AssignedCell::value_field` and `Value::evaluate`: the value that the cell
/// carries, where it carries one.
#[verifier::external_body]
pub(crate) fn witness_value(cell: &WitnessCell) -> (r: Option<Fp>)
    ensures
        crate::field::value_view(r) == cell_value(*cell),
{
    let mut out = None;
    cell.inner.value_field().evaluate().map(|x| out = Some(x));
    out
}

} // verus!
