//! The affine layer in the constraint system: its columns and its gate, and
//! what placing it asks of a region.

use vstd::prelude::*;
use halo2_proofs::plonk::{Constraints, Expression, Selector};
use pasta_curves::Fp;
use crate::affine::{affine_at, dot, Affine1d};
use crate::backend::{
    cell_value, cells_advice, column_index, expr_poly, new_selector, selector_view, system_model,
    AdviceColumn, GateCells, LayoutRegion, Request, System, SystemModel, WitnessCell,
};
use crate::cells::{
    alloc_columns, alloc_grid, assigns, cells_at, cells_in, column_range, columns_below, copies,
    grid_assigns, grid_at, grid_below, grid_copies, grid_in, query_columns, query_grid,
};
use crate::encoder::encoded;
use crate::error::LayerError;
use crate::field::refines;
use crate::gate::{advice, guarded_all, has_simple_selector, Poly};
use crate::tensor::{check_shape, has_shape};
use crate::term::{affine_term, all_usable, linear_model, models, Term};

verus! {

/// The column index of each of a vector of columns.
pub open spec fn columns(v: Seq<AdviceColumn>) -> Seq<nat> {
    Seq::new(v.len(), |i: int| column_index(v[i]))
}

/// The polynomial of each of a vector of expressions.
pub open spec fn exprs_view(v: Seq<Expression<Fp>>) -> Seq<Poly> {
    Seq::new(v.len(), |i: int| expr_poly(v[i]))
}

/// The columns of an affine layer, by their indices.
pub struct AffineLayout {
    pub input: Seq<nat>,
    pub output: Seq<nat>,
    pub weights: Seq<Seq<nat>>,
    pub biases: Seq<nat>,
}

/// The column indices of a layer's columns.
pub open spec fn layout_of<const IN: usize, const OUT: usize>(
    a: Affine1d<AdviceColumn, IN, OUT>,
) -> AffineLayout {
    AffineLayout {
        input: columns(a.input@),
        output: columns(a.output@),
        weights: Seq::new(a.weights@.len(), |i: int| columns(a.weights@[i]@)),
        biases: columns(a.biases@),
    }
}

/// Whether each column of the layer is among the first `n` advice columns.
pub open spec fn layout_below<const IN: usize, const OUT: usize>(
    a: Affine1d<AdviceColumn, IN, OUT>,
    n: nat,
) -> bool {
    &&& columns_below(a.input@, n)
    &&& columns_below(a.output@, n)
    &&& columns_below(a.biases@, n)
    &&& grid_below(a.weights@, n)
}

/// Whether the layer's columns are the `IN + OUT + OUT * IN + OUT` advice
/// columns from index `base` on: input, output, weights row after row, biases.
pub open spec fn fresh_layout<const IN: usize, const OUT: usize>(
    a: Affine1d<AdviceColumn, IN, OUT>,
    base: nat,
) -> bool {
    &&& a.wf()
    &&& forall|j: int| 0 <= j < IN ==> column_index(#[trigger] a.input@[j]) == base + j
    &&& forall|i: int| 0 <= i < OUT ==> column_index(#[trigger] a.output@[i]) == base + IN + i
    &&& forall|i: int, j: int|
        0 <= i < OUT && 0 <= j < IN ==> column_index(#[trigger] a.weights@[i]@[j]) == base + IN
            + OUT + i * IN + j
    &&& forall|i: int|
        0 <= i < OUT ==> column_index(#[trigger] a.biases@[i]) == base + IN + OUT + OUT * IN + i
}

/// Whether the layer's input columns are the given ones, in their order, and
/// its other columns are the `OUT + OUT * IN + OUT` advice columns from index
/// `base` on: output, weights row after row, biases.
pub open spec fn reusing_layout<const IN: usize, const OUT: usize>(
    a: Affine1d<AdviceColumn, IN, OUT>,
    input: Vec<AdviceColumn>,
    base: nat,
) -> bool {
    &&& a.wf()
    &&& a.input == input
    &&& forall|i: int| 0 <= i < OUT ==> column_index(#[trigger] a.output@[i]) == base + i
    &&& forall|i: int, j: int|
        0 <= i < OUT && 0 <= j < IN ==> column_index(#[trigger] a.weights@[i]@[j]) == base + OUT
            + i * IN + j
    &&& forall|i: int|
        0 <= i < OUT ==> column_index(#[trigger] a.biases@[i]) == base + OUT + OUT * IN + i
}

/// The negated output `i` plus the first `n` products of a weight of row `i`
/// and an input, all read on the current row.
pub open spec fn affine_terms(l: AffineLayout, i: int, n: nat) -> Poly
    decreases n,
{
    if n == 0 {
        Poly::Negated(Box::new(advice(l.output[i], 0)))
    } else {
        Poly::Sum(
            Box::new(affine_terms(l, i, (n - 1) as nat)),
            Box::new(
                Poly::Product(
                    Box::new(advice(l.weights[i][n - 1], 0)),
                    Box::new(advice(l.input[n - 1], 0)),
                ),
            ),
        )
    }
}

/// The constraint on output `i`:
/// `-output[i] + sum over j of weights[i][j] * input[j] + biases[i]`.
pub open spec fn affine_poly(l: AffineLayout, i: int) -> Poly {
    Poly::Sum(Box::new(affine_terms(l, i, l.input.len())), Box::new(advice(l.biases[i], 0)))
}

/// The constraints of the layer's gate, one for each output.
pub open spec fn affine_polys(l: AffineLayout) -> Seq<Poly> {
    Seq::new(l.output.len(), |i: int| affine_poly(l, i))
}

/// On expressions, the sum of products on terms from the negated output cell
/// on is the terms of the constraint.
pub proof fn lemma_linear_polys(l: AffineLayout, i: int, w: Seq<Poly>, x: Seq<Poly>, n: nat)
    requires
        forall|k: int| 0 <= k < n ==> w[k] == advice(l.weights[i][k], 0),
        forall|k: int| 0 <= k < n ==> x[k] == advice(l.input[k], 0),
    ensures
        linear_model::<Expression<Fp>>(Poly::Negated(Box::new(advice(l.output[i], 0))), w, x, n)
            == affine_terms(l, i, n),
    decreases n,
{
    if n > 0 {
        lemma_linear_polys(l, i, w, x, (n - 1) as nat);
    }
}

/// Builds the constraints of the layer's gate from the cells of its columns on
/// the current row: for each output, the sum of products of the forward pass,
/// taken from the negated output cell on.
pub fn affine_constraints<const IN: usize, const OUT: usize>(
    cells: &mut GateCells<'_, '_>,
    a: &Affine1d<AdviceColumn, IN, OUT>,
) -> (r: Vec<Expression<Fp>>)
    requires
        a.wf(),
        layout_below(*a, cells_advice(*old(cells))),
    ensures
        exprs_view(r@) == affine_polys(layout_of(*a)),
        forall|i: int| 0 <= i < r.len() ==> !has_simple_selector(expr_poly(#[trigger] r@[i])),
{
    let ghost l = layout_of(*a);
    let input = query_columns(cells, &a.input, 0);
    let output = query_columns(cells, &a.output, 0);
    let biases = query_columns(cells, &a.biases, 0);
    let weights = query_grid(cells, &a.weights, 0);
    proof {
        reveal_with_fuel(has_simple_selector, 2);
        assert(all_usable(input@));
    }
    let mut out: Vec<Expression<Fp>> = Vec::new();
    let mut i: usize = 0;
    while i < OUT
        invariant
            i <= OUT,
            a.wf(),
            l == layout_of(*a),
            out.len() == i,
            input.len() == IN,
            output.len() == OUT,
            biases.len() == OUT,
            weights.len() == OUT,
            all_usable(input@),
            forall|k: int| 0 <= k < OUT ==> (#[trigger] weights@[k]).len() == IN,
            forall|k: int| 0 <= k < IN ==> expr_poly(#[trigger] input@[k]) == advice(l.input[k], 0),
            forall|k: int|
                0 <= k < OUT ==> expr_poly(#[trigger] output@[k]) == advice(l.output[k], 0),
            forall|k: int|
                0 <= k < OUT ==> expr_poly(#[trigger] biases@[k]) == advice(l.biases[k], 0),
            forall|k: int, j: int|
                0 <= k < OUT && 0 <= j < IN ==> expr_poly(#[trigger] weights@[k]@[j]) == advice(
                    l.weights[k][j],
                    0,
                ),
            forall|k: int| 0 <= k < i ==> expr_poly(#[trigger] out@[k]) == affine_poly(l, k),
            forall|k: int| 0 <= k < i ==> !has_simple_selector(expr_poly(#[trigger] out@[k])),
        decreases OUT - i,
    {
        proof {
            reveal_with_fuel(has_simple_selector, 2);
            assert(all_usable(weights@[i as int]@));
            lemma_linear_polys(
                l,
                i as int,
                models(weights@[i as int]@),
                models(input@),
                IN as nat,
            );
        }
        let start = output[i].duplicate().negated();
        let constraint = affine_term(start, &weights[i], &input, &biases[i]);
        out.push(constraint);
        i = i + 1;
    }
    proof {
        assert(exprs_view(out@) =~= affine_polys(l));
    }
    out
}

/// `ConstraintSystem::create_gate`: registers one gate, named "affine", whose
/// polynomials are the layer's constraints, built on the cells of this
/// constraint system, each multiplied by the selector. The backend panics on a
/// gate without constraints.
#[verifier::external_body]
fn create_affine_gate<const IN: usize, const OUT: usize>(
    sys: &mut System,
    a: &Affine1d<AdviceColumn, IN, OUT>,
    q: Selector,
)
    requires
        a.wf(),
        OUT > 0,
        layout_below(*a, system_model(*old(sys)).advice),
    ensures
        system_model(*final(sys)) == (SystemModel {
            gates: system_model(*old(sys)).gates.push(
                guarded_all(selector_view(q), affine_polys(layout_of(*a))),
            ),
            ..system_model(*old(sys))
        }),
{
    sys.inner.create_gate("affine", |cells| {
        let s = cells.query_selector(q);
        Constraints::with_selector(s, affine_constraints(&mut GateCells { inner: cells }, a))
    });
}

/// The configuration of an affine layer: its columns and its enable flag.
#[derive(Clone)]
pub struct Affine1dConfig<const IN: usize, const OUT: usize> {
    pub advice: Affine1d<AdviceColumn, IN, OUT>,
    pub q: Selector,
}

/// The cells that hold a layer's parameters.
pub struct Parameters<const IN: usize, const OUT: usize> {
    pub weights: Vec<Vec<WitnessCell>>,
    pub biases: Vec<WitnessCell>,
}

/// The cells of a layer after a forward pass.
pub struct Affine1dFullyAssigned<const IN: usize, const OUT: usize> {
    pub parameters: Parameters<IN, OUT>,
    pub input: Vec<WitnessCell>,
    pub output: Vec<WitnessCell>,
}

/// How a layer's input cells are tied to the cells it is handed.
#[derive(Clone, Copy, Debug, PartialEq, Eq, Structural)]
pub enum Wiring {
    /// The cells handed in already stand in the layer's input columns on its
    /// row: the layer reads them where they are.
    Reuse,
    /// The layer copies each cell handed in to its own input column and
    /// constrains the two equal.
    Copy,
}

impl<const IN: usize, const OUT: usize> Parameters<IN, OUT> {
    /// Whether the weights are an `OUT` by `IN` grid and there are `OUT` biases.
    pub open spec fn wf(&self) -> bool {
        has_shape(self.weights@, OUT as nat, IN as nat) && self.biases.len() == OUT
    }

    /// Whether every parameter cell was written in a region of the region's
    /// backend.
    pub open spec fn known_in(&self, r: LayoutRegion<'_>) -> bool {
        cells_in(self.biases@, r) && grid_in(self.weights@, r)
    }

    /// Whether every parameter cell lies in the column of its parameter, on
    /// the row at `offset`.
    pub open spec fn placed_at(
        &self,
        region: nat,
        a: Affine1d<AdviceColumn, IN, OUT>,
        offset: nat,
    ) -> bool {
        cells_at(self.biases@, region, a.biases@, offset) && grid_at(
            self.weights@,
            region,
            a.weights@,
            offset,
        )
    }

    /// Tells whether the cells have the layer's dimensions.
    pub fn is_well_formed(&self) -> (ok: bool)
        ensures
            ok == self.wf(),
    {
        self.biases.len() == OUT && check_shape(&self.weights, OUT, IN)
    }
}

/// Every output of the layer: `W * input + b`.
pub open spec fn affine_all(
    weights: Seq<Seq<Option<nat>>>,
    biases: Seq<Option<nat>>,
    input: Seq<Option<nat>>,
) -> Seq<Option<nat>> {
    Seq::new(biases.len(), |i: int| affine_at(weights[i], input, biases[i]))
}

/// What placing the parameters asks of the region: to write the biases to the
/// cells of the bias columns, then the weights to the cells of the weight
/// columns, row after row, all on the row at `offset`.
pub open spec fn parameter_requests<const IN: usize, const OUT: usize>(
    a: Affine1d<AdviceColumn, IN, OUT>,
    offset: nat,
    weights: Seq<Seq<Option<nat>>>,
    biases: Seq<Option<nat>>,
) -> Seq<Request> {
    assigns(a.biases@, offset, biases) + grid_assigns(a.weights@, offset, weights, a.weights@.len())
}

/// What tying the parameters asks of the region: to copy the bias cells to
/// the cells of the bias columns, then the weight cells to the cells of the
/// weight columns, row after row, all on the row at `offset`.
pub open spec fn tie_requests<const IN: usize, const OUT: usize>(
    a: Affine1d<AdviceColumn, IN, OUT>,
    offset: nat,
    weights: Seq<Vec<WitnessCell>>,
    biases: Seq<WitnessCell>,
) -> Seq<Request> {
    copies(a.biases@, offset, biases) + grid_copies(a.weights@, offset, weights, a.weights@.len())
}

/// What the forward pass asks of the region: with equality copy, to copy the
/// input cells to the cells of the input columns; then to write the output to
/// the cells of the output columns, all on the row at `offset`.
pub open spec fn forward_requests<const IN: usize, const OUT: usize>(
    a: Affine1d<AdviceColumn, IN, OUT>,
    offset: nat,
    wiring: Wiring,
    input: Seq<WitnessCell>,
    output: Seq<Option<nat>>,
) -> Seq<Request> {
    (if wiring == Wiring::Copy {
        copies(a.input@, offset, input)
    } else {
        Seq::empty()
    }) + assigns(a.output@, offset, output)
}

/// Whether each value of `a` is unknown or the value at its place in `b`.
pub open spec fn all_refine(a: Seq<Option<nat>>, b: Seq<Option<nat>>) -> bool {
    a.len() == b.len() && forall|i: int| 0 <= i < a.len() ==> refines(#[trigger] a[i], b[i])
}

/// What laying the layer out asks of a region: to set the layer's selector on
/// the first row, to place the parameters there, to copy the input there, and
/// to write `output` to the cells of the output columns there.
pub open spec fn layout_requests<const IN: usize, const OUT: usize>(
    config: Affine1dConfig<IN, OUT>,
    weights: Seq<Seq<Option<nat>>>,
    biases: Seq<Option<nat>>,
    input: Seq<WitnessCell>,
    output: Seq<Option<nat>>,
) -> Seq<Request> {
    seq![Request::Enable { selector: selector_view(config.q).0, offset: 0 }] + parameter_requests(
        config.advice,
        0,
        weights,
        biases,
    ) + forward_requests(config.advice, 0, Wiring::Copy, input, output)
}

/// What holds of the output cells of a forward pass: there are `OUT` of them,
/// and each carries no value or the value of `W * input + b` at its index.
pub open spec fn forward_post(
    out: Seq<WitnessCell>,
    weights: Seq<Seq<Option<nat>>>,
    biases: Seq<Option<nat>>,
    input: Seq<Option<nat>>,
) -> bool {
    out.len() == biases.len() && forall|i: int|
        0 <= i < out.len() ==> refines(
            cell_value(#[trigger] out[i]),
            affine_at(weights[i], input, biases[i]),
        )
}

/// The known witness values that encode the integers of a grid.
pub open spec fn encoded_grid(g: Seq<Vec<i32>>) -> Seq<Seq<Option<nat>>> {
    Seq::new(g.len(), |i: int| encoded(g[i]@))
}

/// A sum of products computed on values of which some may be missing is
/// missing itself, or the sum on the values.
pub proof fn lemma_dot_refines(
    w1: Seq<Option<nat>>,
    x1: Seq<Option<nat>>,
    w2: Seq<Option<nat>>,
    x2: Seq<Option<nat>>,
    n: nat,
)
    requires
        n <= w1.len() == w2.len(),
        n <= x1.len() == x2.len(),
        forall|k: int| 0 <= k < n ==> refines(w1[k], w2[k]),
        forall|k: int| 0 <= k < n ==> refines(x1[k], x2[k]),
    ensures
        refines(dot(w1, x1, n), dot(w2, x2, n)),
    decreases n,
{
    if n > 0 {
        lemma_dot_refines(w1, x1, w2, x2, (n - 1) as nat);
    }
}

/// An output computed on values of which some may be missing is missing
/// itself, or the output on the values.
pub proof fn lemma_affine_refines(
    w1: Seq<Option<nat>>,
    x1: Seq<Option<nat>>,
    b1: Option<nat>,
    w2: Seq<Option<nat>>,
    x2: Seq<Option<nat>>,
    b2: Option<nat>,
)
    requires
        x1.len() <= w1.len() == w2.len(),
        x1.len() == x2.len(),
        forall|k: int| 0 <= k < x1.len() ==> refines(w1[k], w2[k]),
        forall|k: int| 0 <= k < x1.len() ==> refines(x1[k], x2[k]),
        refines(b1, b2),
    ensures
        refines(affine_at(w1, x1, b1), affine_at(w2, x2, b2)),
{
    lemma_dot_refines(w1, x1, w2, x2, x1.len());
}

impl<const IN: usize, const OUT: usize> Affine1dConfig<IN, OUT> {
    /// Whether the columns have the layer's dimensions.
    pub open spec fn wf(&self) -> bool {
        self.advice.wf()
    }

    /// Allocates the layer's columns: `IN` for the input, `OUT` for the
    /// output, `OUT * IN` for the weights and `OUT` for the biases, in this
    /// order, and enables equality on all of them, so that every cell of the
    /// layer can be copied from or to.
    pub fn define_advice(sys: &mut System) -> (r: Affine1d<AdviceColumn, IN, OUT>)
        ensures
            fresh_layout(r, system_model(*old(sys)).advice),
            layout_below(r, system_model(*final(sys)).advice),
            system_model(*final(sys)).advice == system_model(*old(sys)).advice + IN + OUT + OUT
                * IN + OUT,
            system_model(*final(sys)).selectors == system_model(*old(sys)).selectors,
            system_model(*final(sys)).gates == system_model(*old(sys)).gates,
            system_model(*final(sys)).equality == system_model(*old(sys)).equality.union(
                column_range(
                    system_model(*old(sys)).advice,
                    (system_model(*old(sys)).advice + IN + OUT + OUT * IN + OUT) as nat,
                ),
            ),
    {
        let ghost start = system_model(*sys);
        let input = alloc_columns(sys, IN, true);
        let output = alloc_columns(sys, OUT, true);
        let weights = alloc_grid(sys, OUT, IN, true);
        let biases = alloc_columns(sys, OUT, true);
        proof {
            assert(OUT * IN >= 0) by (nonlinear_arith);
            assert(system_model(*sys).equality =~= start.equality.union(
                column_range(
                    start.advice,
                    (start.advice + IN + OUT + OUT * IN + OUT) as nat,
                ),
            ));
        }
        Affine1d { input, output, weights, biases }
    }

    /// Configures the layer on columns that exist already, columns of this
    /// constraint system, and registers its gate under a new selector.
    ///
    /// Fails with `Shape`, and leaves the constraint system as it was, where
    /// the columns have not the layer's dimensions or the layer has no output.
    pub fn composable_configure(advice: Affine1d<AdviceColumn, IN, OUT>, sys: &mut System) -> (r:
        Result<Self, LayerError>)
        requires
            layout_below(advice, system_model(*old(sys)).advice),
        ensures
            match r {
                Ok(config) => {
                    &&& advice.wf()
                    &&& OUT > 0
                    &&& config.advice == advice
                    &&& selector_view(config.q) == (system_model(*old(sys)).selectors, true)
                    &&& system_model(*final(sys)) == (SystemModel {
                        selectors: system_model(*old(sys)).selectors + 1,
                        gates: system_model(*old(sys)).gates.push(
                            guarded_all(selector_view(config.q), affine_polys(layout_of(advice))),
                        ),
                        ..system_model(*old(sys))
                    })
                },
                Err(e) => e is Shape && !(advice.wf() && OUT > 0) && *final(sys) == *old(sys),
            },
    {
        if OUT == 0 || !advice.is_well_formed() {
            return Err(LayerError::Shape);
        }
        let q = new_selector(sys);
        create_affine_gate(sys, &advice, q);
        Ok(Affine1dConfig { advice, q })
    }

    /// Configures the layer with the given columns of this constraint system
    /// as its input columns, so that it reads the cells of an earlier layer
    /// where they are, and with new columns for output, weights and biases:
    /// no column is allocated for the input.
    ///
    /// Fails with `Shape`, and leaves the constraint system as it was, where
    /// there are not `IN` input columns or the layer has no output.
    pub fn configure_with_input(input: Vec<AdviceColumn>, sys: &mut System) -> (r: Result<
        Self,
        LayerError,
    >)
        requires
            columns_below(input@, system_model(*old(sys)).advice),
        ensures
            match r {
                Ok(config) => {
                    &&& input.len() == IN
                    &&& OUT > 0
                    &&& reusing_layout(config.advice, input, system_model(*old(sys)).advice)
                    &&& selector_view(config.q) == (system_model(*old(sys)).selectors, true)
                    &&& system_model(*final(sys)) == (SystemModel {
                        advice: (system_model(*old(sys)).advice + OUT + OUT * IN + OUT) as nat,
                        selectors: system_model(*old(sys)).selectors + 1,
                        equality: system_model(*old(sys)).equality.union(
                            column_range(
                                system_model(*old(sys)).advice,
                                (system_model(*old(sys)).advice + OUT + OUT * IN + OUT) as nat,
                            ),
                        ),
                        gates: system_model(*old(sys)).gates.push(
                            guarded_all(
                                selector_view(config.q),
                                affine_polys(layout_of(config.advice)),
                            ),
                        ),
                    })
                },
                Err(e) => e is Shape && !(input.len() == IN && OUT > 0) && *final(sys) == *old(sys),
            },
    {
        if OUT == 0 || input.len() != IN {
            return Err(LayerError::Shape);
        }
        let ghost start = system_model(*sys);
        let output = alloc_columns(sys, OUT, true);
        let weights = alloc_grid(sys, OUT, IN, true);
        let biases = alloc_columns(sys, OUT, true);
        proof {
            assert(OUT * IN >= 0) by (nonlinear_arith);
            assert(system_model(*sys).equality =~= start.equality.union(
                column_range(start.advice, (start.advice + OUT + OUT * IN + OUT) as nat),
            ));
        }
        let advice = Affine1d { input, output, weights, biases };
        Self::composable_configure(advice, sys)
    }

    /// Configures the layer on new columns, and registers its gate under a new
    /// selector.
    ///
    /// Fails with `Shape`, and leaves the constraint system as it was, where
    /// the layer has no output.
    pub fn configure(sys: &mut System) -> (r: Result<Self, LayerError>)
        ensures
            match r {
                Ok(config) => {
                    &&& OUT > 0
                    &&& fresh_layout(config.advice, system_model(*old(sys)).advice)
                    &&& selector_view(config.q) == (system_model(*old(sys)).selectors, true)
                    &&& system_model(*final(sys)) == (SystemModel {
                        advice: (system_model(*old(sys)).advice + IN + OUT + OUT * IN + OUT) as nat,
                        selectors: system_model(*old(sys)).selectors + 1,
                        equality: system_model(*old(sys)).equality.union(
                            column_range(
                                system_model(*old(sys)).advice,
                                (system_model(*old(sys)).advice + IN + OUT + OUT * IN + OUT) as nat,
                            ),
                        ),
                        gates: system_model(*old(sys)).gates.push(
                            guarded_all(
                                selector_view(config.q),
                                affine_polys(layout_of(config.advice)),
                            ),
                        ),
                    })
                },
                Err(e) => e is Shape && OUT == 0 && *final(sys) == *old(sys),
            },
    {
        if OUT == 0 {
            return Err(LayerError::Shape);
        }
        let advice = Self::define_advice(sys);
        Self::composable_configure(advice, sys)
    }
}

} // verus!
