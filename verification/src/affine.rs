//! The affine layer `output = W * input + b`: its tensors, and the forward
//! pass on witness values.

use vstd::prelude::*;
use pasta_curves::Fp;
use crate::encoder::{all_in_range, encode_all, encode_grid, encoded, grid_in_range};
use crate::error::LayerError;
use crate::field::{add_opt, mul_opt, value_view, value_zero, values_view};
use crate::term::{affine_term, linear_model, linear_term, models};
use crate::tensor::{check_shape, has_shape, map1, map2};

verus! {

/// The tensors of an affine layer with `IN` inputs and `OUT` outputs. `Inner`
/// is what stands at each position: a column, a witness value, a cell.
#[derive(Clone)]
pub struct Affine1d<Inner, const IN: usize, const OUT: usize> {
    pub input: Vec<Inner>,
    pub output: Vec<Inner>,
    pub weights: Vec<Vec<Inner>>,
    pub biases: Vec<Inner>,
}

/// The sum of the first `n` products `w[k] * x[k]`, unknown as soon as one of
/// the factors is.
pub open spec fn dot(w: Seq<Option<nat>>, x: Seq<Option<nat>>, n: nat) -> Option<nat>
    decreases n,
{
    if n == 0 {
        Some(0nat)
    } else {
        add_opt(dot(w, x, (n - 1) as nat), mul_opt(w[n - 1], x[n - 1]))
    }
}

/// One output of the layer: the row of weights times the input, plus the bias.
pub open spec fn affine_at(w: Seq<Option<nat>>, x: Seq<Option<nat>>, b: Option<nat>) -> Option<
    nat,
> {
    add_opt(dot(w, x, x.len()), b)
}

/// A vector of `n` unknown witness values.
pub open spec fn unknowns(n: nat) -> Seq<Option<nat>> {
    Seq::new(n, |i: int| None::<nat>)
}

/// On witness values, the sum of products on terms from zero on is the sum
/// of products.
pub proof fn lemma_linear_values(w: Seq<Option<nat>>, x: Seq<Option<nat>>, n: nat)
    ensures
        linear_model::<Option<Fp>>(Some(0nat), w, x, n) == dot(w, x, n),
    decreases n,
{
    if n > 0 {
        lemma_linear_values(w, x, (n - 1) as nat);
    }
}

/// The row of weights times the input.
pub fn dot_row(w: &Vec<Option<Fp>>, x: &Vec<Option<Fp>>) -> (acc: Option<Fp>)
    requires
        w.len() == x.len(),
    ensures
        value_view(acc) == dot(values_view(w@), values_view(x@), x.len() as nat),
{
    proof {
        assert(models(w@) =~= values_view(w@));
        assert(models(x@) =~= values_view(x@));
        lemma_linear_values(values_view(w@), values_view(x@), x.len() as nat);
    }
    linear_term(value_zero(), w, x)
}

/// One output of the layer: the row of weights times the input, plus the
/// bias.
pub fn affine_value(w: &Vec<Option<Fp>>, x: &Vec<Option<Fp>>, b: Option<Fp>) -> (r: Option<Fp>)
    requires
        w.len() == x.len(),
    ensures
        value_view(r) == affine_at(values_view(w@), values_view(x@), value_view(b)),
{
    proof {
        assert(models(w@) =~= values_view(w@));
        assert(models(x@) =~= values_view(x@));
        assert(values_view(x@).len() == x.len());
        lemma_linear_values(values_view(w@), values_view(x@), x.len() as nat);
    }
    affine_term(value_zero(), w, x, &b)
}

/// A vector of `n` unknown witness values.
pub fn unknown_values(n: usize) -> (r: Vec<Option<Fp>>)
    ensures
        values_view(r@) == unknowns(n as nat),
{
    let mut out: Vec<Option<Fp>> = Vec::new();
    let mut i: usize = 0;
    while i < n
        invariant
            i <= n,
            out.len() == i,
            forall|k: int| 0 <= k < i ==> (#[trigger] out@[k]) is None,
        decreases n - i,
    {
        out.push(None);
        i = i + 1;
    }
    assert(values_view(out@) =~= unknowns(n as nat));
    out
}

/// A grid of `rows` rows of `cols` unknown witness values.
pub fn unknown_grid(rows: usize, cols: usize) -> (r: Vec<Vec<Option<Fp>>>)
    ensures
        has_shape(r@, rows as nat, cols as nat),
        forall|i: int| 0 <= i < rows ==> values_view(#[trigger] r@[i]@) == unknowns(cols as nat),
{
    let mut out: Vec<Vec<Option<Fp>>> = Vec::new();
    let mut i: usize = 0;
    while i < rows
        invariant
            i <= rows,
            out.len() == i,
            forall|k: int| 0 <= k < i ==> (#[trigger] out@[k]).len() == cols,
            forall|k: int| 0 <= k < i ==> values_view(#[trigger] out@[k]@) == unknowns(cols as nat),
        decreases rows - i,
    {
        let row = unknown_values(cols);
        assert(row.len() == cols) by {
            assert(values_view(row@).len() == row@.len());
        }
        out.push(row);
        i = i + 1;
    }
    out
}

impl<Inner, const IN: usize, const OUT: usize> Affine1d<Inner, IN, OUT> {
    /// Whether the weights are an `OUT` by `IN` grid and there are `OUT` biases.
    pub open spec fn params_shaped(&self) -> bool {
        has_shape(self.weights@, OUT as nat, IN as nat) && self.biases.len() == OUT
    }

    /// Whether every tensor has the layer's dimensions.
    pub open spec fn wf(&self) -> bool {
        self.input.len() == IN && self.output.len() == OUT && self.params_shaped()
    }

    /// Tells whether every tensor has the layer's dimensions.
    pub fn is_well_formed(&self) -> (ok: bool)
        ensures
            ok == self.wf(),
    {
        self.input.len() == IN && self.output.len() == OUT && self.biases.len() == OUT
            && check_shape(&self.weights, OUT, IN)
    }

    /// The layer whose input, output and biases hold `f` of their index, and
    /// whose weights hold `w` of their row and column. `f` need take only the
    /// indices below `IN` or `OUT`, `w` only rows below `OUT` and columns
    /// below `IN`.
    pub fn fill<Func1, Func2>(f: Func1, w: Func2) -> (r: Self) where
        Func1: Fn(usize) -> Inner,
        Func2: Fn(usize, usize) -> Inner,

        requires
            forall|i: usize| i < IN || i < OUT ==> call_requires(f, (i,)),
            forall|i: usize, j: usize| i < OUT && j < IN ==> call_requires(w, (i, j)),
        ensures
            r.wf(),
            forall|i: usize| i < IN ==> call_ensures(f, (i,), #[trigger] r.input@[i as int]),
            forall|i: usize| i < OUT ==> call_ensures(f, (i,), #[trigger] r.output@[i as int]),
            forall|i: usize| i < OUT ==> call_ensures(f, (i,), #[trigger] r.biases@[i as int]),
            forall|i: usize, j: usize|
                i < OUT && j < IN ==> call_ensures(
                    w,
                    (i, j),
                    #[trigger] r.weights@[i as int]@[j as int],
                ),
    {
        let input = map1::<Inner, &Func1, IN>(&f);
        let output = map1::<Inner, &Func1, OUT>(&f);
        let weights = map2::<Inner, &Func2, OUT, IN>(&w);
        let biases = map1::<Inner, &Func1, OUT>(&f);
        Affine1d { input, output, weights, biases }
    }

    /// The layer none of whose values is known yet.
    pub fn without_witnesses() -> (r: Affine1d<Option<Fp>, IN, OUT>)
        ensures
            r.wf(),
            values_view(r.input@) == unknowns(IN as nat),
            values_view(r.output@) == unknowns(OUT as nat),
            values_view(r.biases@) == unknowns(OUT as nat),
            forall|i: int| 0 <= i < OUT ==> values_view(#[trigger] r.weights@[i]@) == unknowns(IN as nat),
    {
        let input = unknown_values(IN);
        let output = unknown_values(OUT);
        let biases = unknown_values(OUT);
        let weights = unknown_grid(OUT, IN);
        assert(values_view(input@).len() == input@.len());
        assert(values_view(output@).len() == output@.len());
        assert(values_view(biases@).len() == biases@.len());
        Affine1d { input, output, weights, biases }
    }

    /// The layer whose tensors encode the given integers.
    ///
    /// Fails with `Shape` where a tensor has not the layer's dimensions, and
    /// else with `OutOfRange` where an integer cannot be encoded.
    pub fn from_i32(input: Vec<i32>, output: Vec<i32>, weights: Vec<Vec<i32>>, biases: Vec<i32>) -> (r:
        Result<Affine1d<Option<Fp>, IN, OUT>, LayerError>)
        ensures
            match r {
                Ok(a) => {
                    &&& input.len() == IN && output.len() == OUT && biases.len() == OUT
                    &&& has_shape(weights@, OUT as nat, IN as nat)
                    &&& all_in_range(input@) && all_in_range(output@) && all_in_range(biases@)
                    &&& grid_in_range(weights@)
                    &&& a.wf()
                    &&& values_view(a.input@) == encoded(input@)
                    &&& values_view(a.output@) == encoded(output@)
                    &&& values_view(a.biases@) == encoded(biases@)
                    &&& forall|i: int|
                        0 <= i < OUT ==> values_view(#[trigger] a.weights@[i]@) == encoded(
                            weights@[i]@,
                        )
                },
                Err(e) => if input.len() == IN && output.len() == OUT && biases.len() == OUT
                    && has_shape(weights@, OUT as nat, IN as nat) {
                    e is OutOfRange && !(all_in_range(input@) && all_in_range(output@)
                        && all_in_range(biases@) && grid_in_range(weights@))
                } else {
                    e is Shape
                },
            },
    {
        if input.len() != IN || output.len() != OUT || biases.len() != OUT || !check_shape(
            &weights,
            OUT,
            IN,
        ) {
            return Err(LayerError::Shape);
        }
        let input_values = encode_all(&input)?;
        let output_values = encode_all(&output)?;
        let bias_values = encode_all(&biases)?;
        let weight_values = encode_grid(&weights)?;
        proof {
            assert(values_view(input_values@).len() == input_values@.len());
            assert(values_view(output_values@).len() == output_values@.len());
            assert(values_view(bias_values@).len() == bias_values@.len());
            assert forall|i: int| 0 <= i < OUT implies (#[trigger] weight_values@[i]).len()
                == IN by {
                assert(values_view(weight_values@[i]@).len() == weight_values@[i]@.len());
                assert(encoded(weights@[i]@).len() == weights@[i]@.len());
            }
        }
        Ok(
            Affine1d {
                input: input_values,
                output: output_values,
                weights: weight_values,
                biases: bias_values,
            },
        )
    }
}

impl<const IN: usize, const OUT: usize> Affine1d<Option<Fp>, IN, OUT> {
    /// The layer with the given parameters, its input and output not yet known.
    ///
    /// Fails with `Shape` where the weights or the biases have not the layer's
    /// dimensions, and else with `OutOfRange` where an integer cannot be
    /// encoded.
    pub fn from_parameters(weights: Vec<Vec<i32>>, biases: Vec<i32>) -> (r: Result<Self, LayerError>)
        ensures
            match r {
                Ok(a) => {
                    &&& biases.len() == OUT
                    &&& has_shape(weights@, OUT as nat, IN as nat)
                    &&& all_in_range(biases@)
                    &&& grid_in_range(weights@)
                    &&& a.wf()
                    &&& values_view(a.input@) == unknowns(IN as nat)
                    &&& values_view(a.output@) == unknowns(OUT as nat)
                    &&& values_view(a.biases@) == encoded(biases@)
                    &&& forall|i: int|
                        0 <= i < OUT ==> values_view(#[trigger] a.weights@[i]@) == encoded(
                            weights@[i]@,
                        )
                },
                Err(e) => if biases.len() == OUT && has_shape(weights@, OUT as nat, IN as nat) {
                    e is OutOfRange && !(all_in_range(biases@) && grid_in_range(weights@))
                } else {
                    e is Shape
                },
            },
    {
        if biases.len() != OUT || !check_shape(&weights, OUT, IN) {
            return Err(LayerError::Shape);
        }
        let bias_values = encode_all(&biases)?;
        let weight_values = encode_grid(&weights)?;
        let input = unknown_values(IN);
        let output = unknown_values(OUT);
        proof {
            assert(values_view(input@).len() == input@.len());
            assert(values_view(output@).len() == output@.len());
            assert(values_view(bias_values@).len() == bias_values@.len());
            assert forall|i: int| 0 <= i < OUT implies (#[trigger] weight_values@[i]).len()
                == IN by {
                assert(values_view(weight_values@[i]@).len() == weight_values@[i]@.len());
                assert(encoded(weights@[i]@).len() == weights@[i]@.len());
            }
        }
        Ok(Affine1d { input, output, weights: weight_values, biases: bias_values })
    }

    /// The forward pass: takes the input, computes `W * input + b` on the
    /// layer's parameters, keeps input and output in the layer and returns the
    /// output.
    ///
    /// Fails with `Shape`, and leaves the layer as it was, where the input has
    /// not `IN` entries or the parameters have not the layer's dimensions.
    pub fn forward(&mut self, input: Vec<Option<Fp>>) -> (r: Result<Vec<Option<Fp>>, LayerError>)
        ensures
            match r {
                Ok(out) => {
                    &&& old(self).params_shaped()
                    &&& input.len() == IN
                    &&& out.len() == OUT
                    &&& forall|i: int|
                        0 <= i < OUT ==> value_view(#[trigger] out@[i]) == affine_at(
                            values_view(old(self).weights@[i]@),
                            values_view(input@),
                            value_view(old(self).biases@[i]),
                        )
                    &&& final(self).input@ == input@
                    &&& final(self).output@ == out@
                    &&& final(self).weights == old(self).weights
                    &&& final(self).biases == old(self).biases
                },
                Err(e) => e is Shape && !(old(self).params_shaped() && input.len() == IN)
                    && *final(self) == *old(self),
            },
    {
        if input.len() != IN || self.biases.len() != OUT || !check_shape(&self.weights, OUT, IN) {
            return Err(LayerError::Shape);
        }
        let mut out: Vec<Option<Fp>> = Vec::new();
        let mut kept: Vec<Option<Fp>> = Vec::new();
        let mut i: usize = 0;
        while i < OUT
            invariant
                i <= OUT,
                out.len() == i,
                kept@ == out@,
                input.len() == IN,
                self.params_shaped(),
                forall|k: int|
                    0 <= k < i ==> value_view(#[trigger] out@[k]) == affine_at(
                        values_view(self.weights@[k]@),
                        values_view(input@),
                        value_view(self.biases@[k]),
                    ),
            decreases OUT - i,
        {
            let y = affine_value(&self.weights[i], &input, self.biases[i]);
            out.push(y);
            kept.push(y);
            i = i + 1;
        }
        self.input = input;
        self.output = kept;
        Ok(out)
    }
}

} // verus!
