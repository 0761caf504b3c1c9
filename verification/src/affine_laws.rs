//! What holds of the affine layer: its gate accepts exactly the witness of the
//! forward pass, and the forward pass on encoded integers is the encoded
//! integer result.

use vstd::prelude::*;
use vstd::arithmetic::div_mod::{
    lemma_add_mod_noop, lemma_fundamental_div_mod_converse, lemma_mod_add_multiples_vanish,
    lemma_mod_self_0, lemma_mul_mod_noop, lemma_small_mod,
};
use crate::affine::{affine_at, dot};
use crate::affine_config::{
    affine_all, affine_poly, affine_polys, affine_terms, all_refine, forward_requests,
    fresh_layout, layout_of, layout_requests, lemma_affine_refines, parameter_requests,
    tie_requests, Affine1dConfig, AffineLayout, Wiring,
};
use crate::backend::{
    column_index, region_log, selector_view, AdviceColumn, LayoutRegion, Request, WitnessCell,
};
use crate::cells::{assigns, cells_view, copies, grid_assigns, grid_cells, grid_copies};
use crate::encoder::{encode_value, encoded_ints};
use crate::field::{add_mod, modulus, mul_mod, neg_mod, refines};
use crate::gate::{eval, guarded_all, lemma_guarded, Row};
use crate::witness::{
    agrees, holds, lemma_agrees_assigns, lemma_agrees_concat, lemma_agrees_copies,
    lemma_agrees_grid, lemma_agrees_grid_copies,
};

verus! {

/// What the cells of the given columns hold on the row, as known witness
/// values.
pub open spec fn row_values(row: Row, cols: Seq<nat>) -> Seq<Option<nat>> {
    Seq::new(cols.len(), |k: int| Some((row.advice)(cols[k], 0) % modulus()))
}

/// What the cell of the column holds on the row.
pub open spec fn row_value(row: Row, column: nat) -> nat {
    (row.advice)(column, 0) % modulus()
}

/// The integer sum of the first `n` products `w[k] * x[k]`.
pub open spec fn dot_int(w: Seq<int>, x: Seq<int>, n: nat) -> int
    decreases n,
{
    if n == 0 {
        0
    } else {
        dot_int(w, x, (n - 1) as nat) + w[n - 1] * x[n - 1]
    }
}

/// The sum of a residue's inverse and a residue vanishes exactly when the two
/// are equal.
pub proof fn lemma_neg_cancels(o: nat, a: nat)
    requires
        o < modulus(),
        a < modulus(),
    ensures
        add_mod(neg_mod(o), a) == 0 <==> a == o,
{
    let p = modulus();
    lemma_small_mod(o, p);
    if o == 0 {
        lemma_mod_self_0(p as int);
        lemma_small_mod(a, p);
    } else {
        lemma_small_mod((p - o) as nat, p);
        let s = (p - o + a) as nat;
        if a < o {
            lemma_small_mod(s, p);
        } else {
            lemma_small_mod((s - p) as nat, p);
            lemma_mod_add_multiples_vanish(s - p, p as int);
        }
    }
}

proof fn lemma_terms_eval(l: AffineLayout, row: Row, i: int, n: nat)
    requires
        0 <= i < l.weights.len(),
        n <= l.input.len() == l.weights[i].len(),
    ensures
        dot(row_values(row, l.weights[i]), row_values(row, l.input), n) matches Some(d) && d
            < modulus() && eval(affine_terms(l, i, n), row) == add_mod(
            neg_mod(row_value(row, l.output[i])),
            d,
        ),
    decreases n,
{
    reveal_with_fuel(eval, 4);
    let p = modulus();
    let neg = neg_mod(row_value(row, l.output[i]));
    if n == 0 {
        lemma_small_mod(neg, p);
        lemma_small_mod(row_value(row, l.output[i]), p);
    } else {
        lemma_terms_eval(l, row, i, (n - 1) as nat);
        let d0 = dot(
            row_values(row, l.weights[i]),
            row_values(row, l.input),
            (n - 1) as nat,
        )->0;
        let w = row_value(row, l.weights[i][n - 1]);
        let x = row_value(row, l.input[n - 1]);
        let m = mul_mod(w, x);
        assert(row_values(row, l.weights[i])[n - 1] == Some(w));
        assert(row_values(row, l.input)[n - 1] == Some(x));
        assert(eval(affine_terms(l, i, n), row) == add_mod(add_mod(neg, d0), m));
        lemma_add_mod_noop((neg + d0) as int, m as int, p as int);
        lemma_add_mod_noop(neg as int, (d0 + m) as int, p as int);
        lemma_small_mod(m, p);
        lemma_small_mod(neg, p);
        assert((neg + d0 + m) as int == neg + (d0 + m));
    }
}

/// The constraint on output `i` evaluates to zero on a row exactly when the
/// cell of output `i` holds `W * input + b` at `i`, computed on what the cells
/// of the weights, the input and the bias hold on that row.
pub proof fn lemma_affine_gate(l: AffineLayout, row: Row, i: int)
    requires
        0 <= i < l.weights.len(),
        l.input.len() == l.weights[i].len(),
    ensures
        eval(affine_poly(l, i), row) == 0 <==> Some(row_value(row, l.output[i])) == affine_at(
            row_values(row, l.weights[i]),
            row_values(row, l.input),
            Some(row_value(row, l.biases[i])),
        ),
{
    reveal_with_fuel(eval, 2);
    let p = modulus();
    let o = row_value(row, l.output[i]);
    let b = row_value(row, l.biases[i]);
    let neg = neg_mod(o);
    lemma_terms_eval(l, row, i, l.input.len());
    let d = dot(row_values(row, l.weights[i]), row_values(row, l.input), l.input.len())->0;
    let a = add_mod(d, b);
    assert(row_values(row, l.input).len() == l.input.len());
    assert(eval(affine_poly(l, i), row) == add_mod(add_mod(neg, d), b % p));
    lemma_small_mod(b, p);
    lemma_small_mod(neg, p);
    lemma_add_mod_noop((neg + d) as int, b as int, p as int);
    lemma_add_mod_noop(neg as int, (d + b) as int, p as int);
    assert((neg + d + b) as int == neg + (d + b));
    assert(eval(affine_poly(l, i), row) == add_mod(neg, a));
    lemma_neg_cancels(o, a);
}

/// A row on which the constraint on output `i` holds no longer satisfies it
/// once the cell of output `i` holds another value, the cells of the weights,
/// the input and the bias holding what they held.
pub proof fn lemma_affine_gate_rejects(l: AffineLayout, row: Row, changed: Row, i: int)
    requires
        0 <= i < l.weights.len(),
        l.input.len() == l.weights[i].len(),
        eval(affine_poly(l, i), row) == 0,
        row_value(changed, l.output[i]) != row_value(row, l.output[i]),
        row_value(changed, l.biases[i]) == row_value(row, l.biases[i]),
        forall|j: int|
            0 <= j < l.input.len() ==> row_value(changed, #[trigger] l.input[j]) == row_value(
                row,
                l.input[j],
            ),
        forall|j: int|
            0 <= j < l.input.len() ==> row_value(changed, #[trigger] l.weights[i][j]) == row_value(
                row,
                l.weights[i][j],
            ),
    ensures
        eval(affine_poly(l, i), changed) != 0,
{
    lemma_affine_gate(l, row, i);
    lemma_affine_gate(l, changed, i);
    assert(row_values(changed, l.input) =~= row_values(row, l.input));
    assert(row_values(changed, l.weights[i]) =~= row_values(row, l.weights[i]));
}

/// The sum of products of encoded integers is the encoded integer sum of
/// products.
pub proof fn lemma_dot_encodes(w: Seq<int>, x: Seq<int>, n: nat)
    requires
        n <= w.len(),
        n <= x.len(),
    ensures
        dot(encoded_ints(w), encoded_ints(x), n) == Some(encode_value(dot_int(w, x, n))),
    decreases n,
{
    let p = modulus() as int;
    if n == 0 {
        lemma_small_mod(0, modulus());
    } else {
        lemma_dot_encodes(w, x, (n - 1) as nat);
        let s = dot_int(w, x, (n - 1) as nat);
        let a = w[n - 1];
        let b = x[n - 1];
        lemma_mul_mod_noop(a, b, p);
        lemma_add_mod_noop(s, a * b, p);
        lemma_small_mod(((a * b) % p) as nat, modulus());
    }
}

/// The forward pass on encoded integers is the encoding of
/// `W * input + b` computed on the integers.
pub proof fn lemma_affine_encodes(w: Seq<int>, x: Seq<int>, b: int)
    requires
        x.len() <= w.len(),
    ensures
        affine_at(encoded_ints(w), encoded_ints(x), Some(encode_value(b))) == Some(
            encode_value(dot_int(w, x, x.len()) + b),
        ),
{
    let p = modulus() as int;
    lemma_dot_encodes(w, x, x.len());
    lemma_add_mod_noop(dot_int(w, x, x.len()), b, p);
}

/// A layer that reads equality copies of its input cells computes, wherever
/// it computes a value at all, the output that it computes on the cells
/// themselves: copying and reusing the input give the same outputs.
pub proof fn lemma_copy_matches_reuse(
    w: Seq<Option<nat>>,
    input: Seq<Option<nat>>,
    copies: Seq<Option<nat>>,
    b: Option<nat>,
)
    requires
        input.len() <= w.len(),
        copies.len() == input.len(),
        forall|k: int| 0 <= k < input.len() ==> refines(copies[k], input[k]),
    ensures
        refines(affine_at(w, copies, b), affine_at(w, input, b)),
{
    lemma_affine_refines(w, copies, b, w, input, b);
}

/// Two layers chained give the same final output whether the second reads the
/// output cells of the first where they are or reads equality copies of them:
/// wherever an output cell carries a value, it is the value of the second
/// layer on the output of the first. `hidden` is what the output cells of the
/// first layer carry, `copied` what their copies carry, `reused` and `linked`
/// what the output cells of the second layer carry in the two cases.
pub proof fn lemma_composition(
    w1: Seq<Seq<Option<nat>>>,
    b1: Seq<Option<nat>>,
    x: Seq<Option<nat>>,
    w2: Seq<Seq<Option<nat>>>,
    b2: Seq<Option<nat>>,
    hidden: Seq<Option<nat>>,
    copied: Seq<Option<nat>>,
    reused: Seq<Option<nat>>,
    linked: Seq<Option<nat>>,
)
    requires
        w1.len() == b1.len(),
        w2.len() == b2.len(),
        forall|i: int| 0 <= i < w2.len() ==> (#[trigger] w2[i]).len() == b1.len(),
        all_refine(hidden, affine_all(w1, b1, x)),
        all_refine(copied, hidden),
        all_refine(reused, affine_all(w2, b2, hidden)),
        all_refine(linked, affine_all(w2, b2, copied)),
    ensures
        all_refine(reused, affine_all(w2, b2, affine_all(w1, b1, x))),
        all_refine(linked, affine_all(w2, b2, affine_all(w1, b1, x))),
        forall|i: int|
            0 <= i < b2.len() && reused[i] is Some && linked[i] is Some ==> reused[i] == linked[i],
{
    let first = affine_all(w1, b1, x);
    let chained = affine_all(w2, b2, first);
    assert forall|i: int| 0 <= i < b2.len() implies refines(#[trigger] reused[i], chained[i])
        && refines(linked[i], chained[i]) by {
        lemma_affine_refines(w2[i], hidden, b2[i], w2[i], first, b2[i]);
        lemma_affine_refines(w2[i], copied, b2[i], w2[i], hidden, b2[i]);
        assert(refines(reused[i], affine_all(w2, b2, hidden)[i]));
        assert(refines(linked[i], affine_all(w2, b2, copied)[i]));
    }
    assert forall|i: int| 0 <= i < b2.len() implies refines(#[trigger] linked[i], chained[i]) by {
        assert(refines(reused[i], chained[i]) && refines(linked[i], chained[i]));
    }
}

/// Whether every value of the vector is known.
pub open spec fn all_known(v: Seq<Option<nat>>) -> bool {
    forall|k: int| 0 <= k < v.len() ==> (#[trigger] v[k]) is Some
}

/// The residues of the values of a vector.
pub open spec fn reduced(v: Seq<Option<nat>>) -> Seq<Option<nat>> {
    Seq::new(
        v.len(),
        |k: int|
            match v[k] {
                Some(x) => Some(x % modulus()),
                None => None,
            },
    )
}

/// Whether the cell of each column holds, on the row, the residue of the
/// known value at its place.
pub open spec fn row_holds(row: Row, cols: Seq<nat>, values: Seq<Option<nat>>) -> bool {
    cols.len() == values.len() && forall|k: int|
        0 <= k < cols.len() ==> (#[trigger] values[k]) is Some && row_value(row, cols[k])
            == values[k]->0 % modulus()
}

/// A sum of products does not change when its factors are replaced by their
/// residues.
pub proof fn lemma_dot_reduced(w: Seq<Option<nat>>, x: Seq<Option<nat>>, n: nat)
    requires
        n <= w.len(),
        n <= x.len(),
    ensures
        dot(reduced(w), reduced(x), n) == dot(w, x, n),
    decreases n,
{
    if n > 0 {
        lemma_dot_reduced(w, x, (n - 1) as nat);
        if w[n - 1] is Some && x[n - 1] is Some {
            lemma_mul_mod_noop(w[n - 1]->0 as int, x[n - 1]->0 as int, modulus() as int);
        }
    }
}

/// On a row whose cells hold the weights of row `i`, the input, bias `i` and
/// the output `W * input + b` at `i`, the constraint on output `i` evaluates
/// to zero.
pub proof fn lemma_affine_row(
    l: AffineLayout,
    row: Row,
    w: Seq<Option<nat>>,
    x: Seq<Option<nat>>,
    b: Option<nat>,
    i: int,
)
    requires
        0 <= i < l.weights.len(),
        w.len() == x.len(),
        row_holds(row, l.weights[i], w),
        row_holds(row, l.input, x),
        b is Some,
        row_value(row, l.biases[i]) == b->0 % modulus(),
        affine_at(w, x, b) is Some,
        row_value(row, l.output[i]) == affine_at(w, x, b)->0 % modulus(),
    ensures
        eval(affine_poly(l, i), row) == 0,
{
    let p = modulus();
    lemma_affine_gate(l, row, i);
    lemma_dot_reduced(w, x, x.len());
    assert(row_values(row, l.weights[i]) =~= reduced(w));
    assert(row_values(row, l.input) =~= reduced(x));
    let d = dot(w, x, x.len())->0;
    let bias = b->0;
    lemma_add_mod_noop(d as int, bias as int, p as int);
    lemma_small_mod(d, p);
    let o = affine_at(w, x, b)->0;
    lemma_small_mod(o, p);
}

/// The requests of a layout describe a witness that the layer's gate accepts:
/// on a row that holds what laying the layer out asks for, with known
/// weights and biases, input cells that carry known values and an output
/// that is known and, at each index, `W * input + b`, the layer's selector is
/// set and every constraint of its gate evaluates to zero.
pub proof fn lemma_layout_witness<const IN: usize, const OUT: usize>(
    config: Affine1dConfig<IN, OUT>,
    weights: Seq<Seq<Option<nat>>>,
    biases: Seq<Option<nat>>,
    input: Seq<WitnessCell>,
    output: Seq<Option<nat>>,
    row: Row,
)
    requires
        config.wf(),
        weights.len() == OUT,
        forall|i: int| 0 <= i < OUT ==> (#[trigger] weights[i]).len() == IN && all_known(weights[i]),
        biases.len() == OUT,
        all_known(biases),
        input.len() == IN,
        all_known(cells_view(input)),
        all_refine(output, affine_all(weights, biases, cells_view(input))),
        all_known(output),
        agrees(row, layout_requests(config, weights, biases, input, output), 0),
    ensures
        (row.selector)(selector_view(config.q).0),
        forall|i: int|
            0 <= i < OUT ==> eval(#[trigger] affine_poly(layout_of(config.advice), i), row) == 0,
        forall|i: int|
            0 <= i < OUT ==> eval(
                #[trigger] guarded_all(
                    selector_view(config.q),
                    affine_polys(layout_of(config.advice)),
                )[i],
                row,
            ) == 0,
{
    let a = config.advice;
    let l = layout_of(a);
    let x = cells_view(input);
    assert(output =~= affine_all(weights, biases, x));
    let enable = seq![Request::Enable { selector: selector_view(config.q).0, offset: 0 }];
    let placed = parameter_requests(a, 0, weights, biases);
    let passed = forward_requests(a, 0, Wiring::Copy, input, output);
    lemma_agrees_concat(row, enable + placed, passed, 0);
    lemma_agrees_concat(row, enable, placed, 0);
    assert(holds(row, enable[0], 0));
    let bias_writes = assigns(a.biases@, 0, biases);
    let weight_writes = grid_assigns(a.weights@, 0, weights, a.weights@.len());
    lemma_agrees_concat(row, bias_writes, weight_writes, 0);
    let input_copies = copies(a.input@, 0, input);
    let output_writes = assigns(a.output@, 0, output);
    lemma_agrees_concat(row, input_copies, output_writes, 0);
    assert forall|i: int| 0 <= i < OUT implies eval(#[trigger] affine_poly(l, i), row) == 0 by {
        assert forall|k: int| 0 <= k < IN implies (#[trigger] weights[i][k]) is Some
            && row_value(row, l.weights[i][k]) == weights[i][k]->0 % modulus() by {
            lemma_agrees_grid(row, a.weights@, 0, weights, a.weights@.len(), 0, i, k);
        }
        assert forall|k: int| 0 <= k < IN implies (#[trigger] x[k]) is Some && row_value(
            row,
            l.input[k],
        ) == x[k]->0 % modulus() by {
            lemma_agrees_copies(row, a.input@, 0, input, 0, k);
        }
        lemma_agrees_assigns(row, a.biases@, 0, biases, 0, i);
        lemma_dot_known(weights[i], x, IN as nat);
        lemma_agrees_assigns(row, a.output@, 0, output, 0, i);
        lemma_affine_row(l, row, weights[i], x, biases[i], i);
    }
    assert forall|i: int| 0 <= i < OUT implies eval(
        #[trigger] guarded_all(selector_view(config.q), affine_polys(l))[i],
        row,
    ) == 0 by {
        assert(eval(affine_poly(l, i), row) == 0);
        lemma_guarded(selector_view(config.q), affine_poly(l, i), row);
    }
}

/// A layout that the backend accepted left a witness that the layer's gate
/// accepts: where a region was asked, from state `a` to state `b`, for the
/// whole layout of known weights and biases and of input cells that carry
/// known values, with a known output, on a row that holds what the region
/// was asked for since `a` the layer's selector is set and every constraint
/// of its gate evaluates to zero.
pub proof fn lemma_layout_accepted<const IN: usize, const OUT: usize>(
    config: Affine1dConfig<IN, OUT>,
    a: LayoutRegion<'_>,
    b: LayoutRegion<'_>,
    weights: Seq<Seq<Option<nat>>>,
    biases: Seq<Option<nat>>,
    input: Seq<WitnessCell>,
    output: Seq<Option<nat>>,
    row: Row,
)
    requires
        config.wf(),
        weights.len() == OUT,
        forall|i: int| 0 <= i < OUT ==> (#[trigger] weights[i]).len() == IN && all_known(weights[i]),
        biases.len() == OUT,
        all_known(biases),
        input.len() == IN,
        all_known(cells_view(input)),
        config.requests_of(a, b, weights, biases, input, None, output),
        all_known(output),
        agrees(row, region_log(b).skip(region_log(a).len() as int), 0),
    ensures
        (row.selector)(selector_view(config.q).0),
        forall|i: int|
            0 <= i < OUT ==> eval(
                #[trigger] guarded_all(
                    selector_view(config.q),
                    affine_polys(layout_of(config.advice)),
                )[i],
                row,
            ) == 0,
{
    let asked = layout_requests(config, weights, biases, input, output);
    assert(region_log(b).skip(region_log(a).len() as int) =~= asked);
    lemma_layout_witness(config, weights, biases, input, output, row);
}

/// Tied parameters serve a further forward pass: on a row that holds what
/// tying parameter cells and passing input cells forward ask for on it, the
/// cells all carrying known values and the output being known and, at each
/// index, `W * input + b`, every constraint of the layer's gate evaluates to
/// zero.
pub proof fn lemma_tied_witness<const IN: usize, const OUT: usize>(
    config: Affine1dConfig<IN, OUT>,
    offset: nat,
    weights: Seq<Vec<WitnessCell>>,
    biases: Seq<WitnessCell>,
    input: Seq<WitnessCell>,
    output: Seq<Option<nat>>,
    row: Row,
)
    requires
        config.wf(),
        weights.len() == OUT,
        forall|i: int|
            0 <= i < OUT ==> (#[trigger] weights[i]).len() == IN && all_known(
                cells_view(weights[i]@),
            ),
        biases.len() == OUT,
        all_known(cells_view(biases)),
        input.len() == IN,
        all_known(cells_view(input)),
        all_refine(
            output,
            affine_all(grid_cells(weights), cells_view(biases), cells_view(input)),
        ),
        all_known(output),
        agrees(
            row,
            tie_requests(config.advice, offset, weights, biases) + forward_requests(
                config.advice,
                offset,
                Wiring::Copy,
                input,
                output,
            ),
            offset,
        ),
    ensures
        forall|i: int|
            0 <= i < OUT ==> eval(#[trigger] affine_poly(layout_of(config.advice), i), row) == 0,
{
    let a = config.advice;
    let l = layout_of(a);
    let w = grid_cells(weights);
    let b = cells_view(biases);
    let x = cells_view(input);
    assert(output =~= affine_all(w, b, x));
    let tied = tie_requests(a, offset, weights, biases);
    let passed = forward_requests(a, offset, Wiring::Copy, input, output);
    lemma_agrees_concat(row, tied, passed, offset);
    let bias_copies = copies(a.biases@, offset, biases);
    let weight_copies = grid_copies(a.weights@, offset, weights, a.weights@.len());
    lemma_agrees_concat(row, bias_copies, weight_copies, offset);
    let input_copies = copies(a.input@, offset, input);
    let output_writes = assigns(a.output@, offset, output);
    lemma_agrees_concat(row, input_copies, output_writes, offset);
    assert forall|i: int| 0 <= i < OUT implies eval(#[trigger] affine_poly(l, i), row) == 0 by {
        assert(all_known(cells_view(weights[i]@)));
        assert forall|k: int| 0 <= k < IN implies (#[trigger] w[i][k]) is Some && row_value(
            row,
            l.weights[i][k],
        ) == w[i][k]->0 % modulus() by {
            assert(cells_view(weights[i]@)[k] is Some);
            lemma_agrees_grid_copies(
                row,
                a.weights@,
                offset,
                weights,
                a.weights@.len(),
                offset,
                i,
                k,
            );
        }
        assert forall|k: int| 0 <= k < IN implies (#[trigger] x[k]) is Some && row_value(
            row,
            l.input[k],
        ) == x[k]->0 % modulus() by {
            lemma_agrees_copies(row, a.input@, offset, input, offset, k);
        }
        assert(b[i] is Some);
        lemma_agrees_copies(row, a.biases@, offset, biases, offset, i);
        lemma_dot_known(w[i], x, IN as nat);
        lemma_agrees_assigns(row, a.output@, offset, output, offset, i);
        lemma_affine_row(l, row, w[i], x, b[i], i);
    }
}

/// A sum of products of known values is known.
pub proof fn lemma_dot_known(w: Seq<Option<nat>>, x: Seq<Option<nat>>, n: nat)
    requires
        n <= w.len(),
        n <= x.len(),
        all_known(w),
        all_known(x),
    ensures
        dot(w, x, n) is Some,
    decreases n,
{
    if n > 0 {
        lemma_dot_known(w, x, (n - 1) as nat);
    }
}

/// The row on which the cells of a layer on the columns from `base` on hold
/// the given input, output, weights and biases, every other cell holds zero,
/// and `selector` alone is set.
pub open spec fn layer_row(
    base: nat,
    ins: nat,
    outs: nat,
    selector: nat,
    weights: Seq<Seq<Option<nat>>>,
    biases: Seq<Option<nat>>,
    input: Seq<Option<nat>>,
    output: Seq<Option<nat>>,
) -> Row {
    Row {
        advice: |c: nat, r: int|
            {
                let k = c - base;
                let m = k - ins - outs;
                if r != 0 || k < 0 {
                    0nat
                } else if k < ins {
                    input[k]->0
                } else if k < ins + outs {
                    output[k - ins]->0
                } else if m < outs * ins {
                    weights[m / (ins as int)][m % (ins as int)]->0
                } else if m < outs * ins + outs {
                    biases[m - outs * ins]->0
                } else {
                    0nat
                }
            },
        fixed: |c: nat, r: int| 0nat,
        instance: |c: nat, r: int| 0nat,
        selector: |s: nat| s == selector,
    }
}

proof fn lemma_layer_row_weights(
    row: Row,
    grid: Seq<Vec<AdviceColumn>>,
    base: nat,
    ins: nat,
    outs: nat,
    selector: nat,
    weights: Seq<Seq<Option<nat>>>,
    biases: Seq<Option<nat>>,
    input: Seq<Option<nat>>,
    output: Seq<Option<nat>>,
    n: nat,
)
    requires
        row == layer_row(base, ins, outs, selector, weights, biases, input, output),
        n <= outs,
        grid.len() == outs,
        forall|i: int| 0 <= i < outs ==> (#[trigger] grid[i]).len() == ins,
        forall|i: int, j: int|
            0 <= i < outs && 0 <= j < ins ==> column_index(#[trigger] grid[i]@[j]) == base + ins
                + outs + i * ins + j,
    ensures
        agrees(row, grid_assigns(grid, 0, weights, n), 0),
    decreases n,
{
    if n > 0 {
        lemma_layer_row_weights(
            row,
            grid,
            base,
            ins,
            outs,
            selector,
            weights,
            biases,
            input,
            output,
            (n - 1) as nat,
        );
        let i = n - 1;
        let last = assigns(grid[i]@, 0, weights[i]);
        assert forall|j: int| 0 <= j < last.len() implies holds(row, #[trigger] last[j], 0) by {
            let m = i * ins + j;
            assert(0 <= m < outs * ins) by (nonlinear_arith)
                requires
                    0 <= i < outs,
                    0 <= j < ins,
                    m == i * ins + j,
            ;
            lemma_fundamental_div_mod_converse(m, ins as int, i, j);
            assert(column_index(grid[i]@[j]) == base + ins + outs + m);
        }
        lemma_agrees_concat(row, grid_assigns(grid, 0, weights, (n - 1) as nat), last, 0);
    }
}

/// There is a witness that holds what laying a layer out asks for: for a
/// layer on fresh columns, the row `layer_row` of the weights, the biases and
/// the values that the input cells carry holds every value that is written
/// or copied on the layout's row, and has the layer's selector set.
pub proof fn lemma_layout_row_exists<const IN: usize, const OUT: usize>(
    config: Affine1dConfig<IN, OUT>,
    base: nat,
    weights: Seq<Seq<Option<nat>>>,
    biases: Seq<Option<nat>>,
    input: Seq<WitnessCell>,
)
    requires
        fresh_layout(config.advice, base),
        weights.len() == OUT,
        forall|i: int| 0 <= i < OUT ==> (#[trigger] weights[i]).len() == IN,
        biases.len() == OUT,
        input.len() == IN,
    ensures
        agrees(
            layer_row(
                base,
                IN as nat,
                OUT as nat,
                selector_view(config.q).0,
                weights,
                biases,
                cells_view(input),
                affine_all(weights, biases, cells_view(input)),
            ),
            layout_requests(
                config,
                weights,
                biases,
                input,
                affine_all(weights, biases, cells_view(input)),
            ),
            0,
        ),
{
    let a = config.advice;
    let x = cells_view(input);
    let output = affine_all(weights, biases, x);
    let selector = selector_view(config.q).0;
    let row = layer_row(base, IN as nat, OUT as nat, selector, weights, biases, x, output);
    let enable = seq![Request::Enable { selector, offset: 0 }];
    let bias_writes = assigns(a.biases@, 0, biases);
    let weight_writes = grid_assigns(a.weights@, 0, weights, a.weights@.len());
    let input_copies = copies(a.input@, 0, input);
    let output_writes = assigns(a.output@, 0, output);
    assert(OUT * IN >= 0) by (nonlinear_arith);
    assert(agrees(row, enable, 0));
    assert forall|i: int| 0 <= i < bias_writes.len() implies holds(
        row,
        #[trigger] bias_writes[i],
        0,
    ) by {
        assert(column_index(a.biases@[i]) == base + IN + OUT + OUT * IN + i);
    }
    lemma_layer_row_weights(
        row,
        a.weights@,
        base,
        IN as nat,
        OUT as nat,
        selector,
        weights,
        biases,
        x,
        output,
        OUT as nat,
    );
    assert forall|j: int| 0 <= j < input_copies.len() implies holds(
        row,
        #[trigger] input_copies[j],
        0,
    ) by {
        assert(column_index(a.input@[j]) == base + j);
    }
    assert forall|i: int| 0 <= i < output_writes.len() implies holds(
        row,
        #[trigger] output_writes[i],
        0,
    ) by {
        assert(column_index(a.output@[i]) == base + IN + i);
    }
    lemma_agrees_concat(row, bias_writes, weight_writes, 0);
    lemma_agrees_concat(row, input_copies, output_writes, 0);
    lemma_agrees_concat(row, enable, bias_writes + weight_writes, 0);
    lemma_agrees_concat(
        row,
        enable + (bias_writes + weight_writes),
        input_copies + output_writes,
        0,
    );
}

} // verus!
