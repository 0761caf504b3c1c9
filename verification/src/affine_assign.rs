//! The affine layer at proving time: placing its parameters, its input and
//! its output in a region.
//!
//! Every function here takes the region that the backend's layouter hands to
//! its caller, and says what the region is asked for, in which order, and what
//! comes back whatever the backend answers.

use vstd::prelude::*;
use halo2_proofs::plonk::Error;
use pasta_curves::Fp;
use crate::affine::{affine_at, affine_value};
use crate::affine_config::{
    affine_all, all_refine, encoded_grid, forward_post, forward_requests, layout_requests,
    lemma_affine_refines, parameter_requests, tie_requests, Affine1dConfig, Parameters, Wiring,
};
use crate::backend::{
    cell_value, enable_selector, failure_of, region_index, region_log, same_backend,
    selector_known, selector_view, LayoutRegion, Request, WitnessCell,
};
use crate::cells::{
    assign_grid, assign_values, assigns, cells_at, cells_in, cells_refine, cells_view, copies,
    copy_cells, copy_grid, grid_assigns, grid_cells, grid_copies, lemma_served_more,
    lemma_served_none, lemma_served_one, lemma_served_then, read_cells, read_grid, served,
};
use crate::encoder::{all_in_range, encode_all, encode_grid, encoded, grid_in_range};
use crate::error::{refusal, LayerError};
use crate::field::{grid_view, refines, value_view, values_view};
use crate::tensor::{check_shape, has_shape};

verus! {

impl<const IN: usize, const OUT: usize> Affine1dConfig<IN, OUT> {
    /// Writes the parameters to the cells of the weight and bias columns on
    /// the row at `offset`: the biases, then the weights row after row. Stops
    /// at the first write that the backend refuses, with the backend's error.
    /// The offset is below the largest `usize`, so that rows can be counted.
    pub fn place_parameters(
        &self,
        region: &mut LayoutRegion<'_>,
        offset: usize,
        weights: &Vec<Vec<Option<Fp>>>,
        biases: &Vec<Option<Fp>>,
    ) -> (r: Result<Parameters<IN, OUT>, Error>)
        requires
            self.wf(),
            has_shape(weights@, OUT as nat, IN as nat),
            biases.len() == OUT,
            offset < usize::MAX,
        ensures
            same_backend(*old(region), *final(region)),
            served(
                *old(region),
                *final(region),
                parameter_requests(
                    self.advice,
                    offset as nat,
                    grid_view(weights@),
                    values_view(biases@),
                ),
                failure_of(r),
            ),
            r matches Ok(p) ==> {
                &&& p.known_in(*final(region))
                &&& p.placed_at(region_index(*final(region)), self.advice, offset as nat)
                &&& p.wf()
                &&& cells_refine(p.biases@, values_view(biases@))
                &&& forall|i: int|
                    0 <= i < OUT ==> cells_refine(
                        (#[trigger] p.weights@[i])@,
                        values_view(weights@[i]@),
                    )
                &&& region_log(*final(region)) == region_log(*old(region)) + parameter_requests(
                    self.advice,
                    offset as nat,
                    grid_view(weights@),
                    values_view(biases@),
                )
            },
    {
        let ghost first = assigns(self.advice.biases@, offset as nat, values_view(biases@));
        let ghost second = grid_assigns(
            self.advice.weights@,
            offset as nat,
            grid_view(weights@),
            self.advice.weights@.len(),
        );
        let b = match assign_values(region, &self.advice.biases, offset, biases) {
            Ok(b) => b,
            Err(e) => {
                proof {
                    lemma_served_more(*old(region), *region, first, second, Some(e));
                }
                return Err(e);
            },
        };
        let ghost mid = *region;
        let placed = assign_grid(region, &self.advice.weights, offset, weights);
        proof {
            lemma_served_then(*old(region), mid, *region, first, second, failure_of(placed));
        }
        let w = match placed {
            Ok(w) => w,
            Err(e) => {
                return Err(e);
            },
        };
        proof {
            assert forall|i: int| 0 <= i < OUT implies (#[trigger] w@[i]).len() == IN by {
                assert(cells_refine(w@[i]@, values_view(weights@[i]@)));
            }
            assert((region_log(*old(region)) + first) + second =~= region_log(*old(region)) + (
            first + second));
        }
        Ok(Parameters { weights: w, biases: b })
    }

    /// Links the input cells to the layer as `wiring` says, computes
    /// `W * input + b` on the values that the parameter and input cells carry,
    /// and writes the result to the cells of the output columns on the row at
    /// `offset`. Stops at the first copy or write that the backend refuses,
    /// with the backend's error. Input cells that are copied are of the
    /// region's backend.
    /// The offset is below the largest `usize`, so that rows can be counted.
    pub fn place_forward(
        &self,
        region: &mut LayoutRegion<'_>,
        offset: usize,
        input: &Vec<WitnessCell>,
        params: &Parameters<IN, OUT>,
        wiring: Wiring,
    ) -> (r: Result<Vec<WitnessCell>, Error>)
        requires
            self.wf(),
            params.wf(),
            input.len() == IN,
            wiring == Wiring::Copy ==> cells_in(input@, *old(region)),
            offset < usize::MAX,
        ensures
            same_backend(*old(region), *final(region)),
            served(
                *old(region),
                *final(region),
                forward_requests(
                    self.advice,
                    offset as nat,
                    wiring,
                    input@,
                    affine_all(
                        grid_cells(params.weights@),
                        cells_view(params.biases@),
                        cells_view(input@),
                    ),
                ),
                failure_of(r),
            ),
            r matches Ok(out) ==> {
                &&& cells_in(out@, *final(region))
                &&& cells_at(
                    out@,
                    region_index(*final(region)),
                    self.advice.output@,
                    offset as nat,
                )
                &&& forward_post(
                    out@,
                    grid_cells(params.weights@),
                    cells_view(params.biases@),
                    cells_view(input@),
                )
                &&& region_log(*final(region)) == region_log(*old(region)) + forward_requests(
                    self.advice,
                    offset as nat,
                    wiring,
                    input@,
                    affine_all(
                        grid_cells(params.weights@),
                        cells_view(params.biases@),
                        cells_view(input@),
                    ),
                )
            },
    {
        let ghost computed = affine_all(
            grid_cells(params.weights@),
            cells_view(params.biases@),
            cells_view(input@),
        );
        let ghost linked = if wiring == Wiring::Copy {
            copies(self.advice.input@, offset as nat, input@)
        } else {
            Seq::empty()
        };
        let ghost written = assigns(self.advice.output@, offset as nat, computed);
        match wiring {
            Wiring::Copy => {
                match copy_cells(input, region, &self.advice.input, offset) {
                    Ok(_) => {},
                    Err(e) => {
                        proof {
                            lemma_served_more(*old(region), *region, linked, written, Some(e));
                        }
                        return Err(e);
                    },
                }
            },
            Wiring::Reuse => {
                proof {
                    lemma_served_none(*region, linked);
                    assert(region_log(*region) + linked =~= region_log(*region));
                }
            },
        }
        let ghost mid = *region;
        let x = read_cells(input);
        let w = read_grid(&params.weights);
        let b = read_cells(&params.biases);
        proof {
            assert(values_view(x@).len() == x@.len());
            assert(values_view(b@).len() == b@.len());
        }
        let mut values: Vec<Option<Fp>> = Vec::new();
        let mut i: usize = 0;
        while i < OUT
            invariant
                i <= OUT,
                values.len() == i,
                params.wf(),
                x.len() == IN,
                b.len() == OUT,
                w.len() == OUT,
                values_view(x@) == cells_view(input@),
                values_view(b@) == cells_view(params.biases@),
                forall|k: int|
                    0 <= k < OUT ==> values_view((#[trigger] w@[k])@) == cells_view(
                        params.weights@[k]@,
                    ),
                forall|k: int|
                    0 <= k < i ==> value_view(#[trigger] values@[k]) == affine_at(
                        cells_view(params.weights@[k]@),
                        cells_view(input@),
                        cell_value(params.biases@[k]),
                    ),
            decreases OUT - i,
        {
            proof {
                assert(values_view(w@[i as int]@).len() == w@[i as int]@.len());
                assert(values_view(b@)[i as int] == cells_view(params.biases@)[i as int]);
            }
            let y = affine_value(&w[i], &x, b[i]);
            values.push(y);
            i = i + 1;
        }
        proof {
            assert(values_view(values@) =~= computed);
        }
        let placed = assign_values(region, &self.advice.output, offset, &values);
        proof {
            lemma_served_then(*old(region), mid, *region, linked, written, failure_of(placed));
        }
        let out = match placed {
            Ok(out) => out,
            Err(e) => {
                return Err(e);
            },
        };
        proof {
            assert((region_log(*old(region)) + linked) + written =~= region_log(*old(region)) + (
            linked + written));
        }
        Ok(out)
    }

    /// Enables its gate on the first row of the region and places parameters,
    /// input (by equality copy) and output there, in this order. Stops at the
    /// first request that the backend refuses, with the backend's error; the
    /// selector at least is asked for. The selector and the input cells are
    /// of the region's backend.
    pub fn layout_rows(
        &self,
        region: &mut LayoutRegion<'_>,
        weights: &Vec<Vec<Option<Fp>>>,
        biases: &Vec<Option<Fp>>,
        input: &Vec<WitnessCell>,
    ) -> (r: Result<Vec<WitnessCell>, Error>)
        requires
            self.wf(),
            has_shape(weights@, OUT as nat, IN as nat),
            biases.len() == OUT,
            input.len() == IN,
            selector_known(self.q, *old(region)),
            cells_in(input@, *old(region)),
        ensures
            same_backend(*old(region), *final(region)),
            self.laid_out(
                *old(region),
                *final(region),
                grid_view(weights@),
                values_view(biases@),
                input@,
                failure_of(r),
            ),
            region_log(*final(region)).len() > region_log(*old(region)).len(),
            region_log(*final(region))[region_log(*old(region)).len() as int] == (Request::Enable {
                selector: selector_view(self.q).0,
                offset: 0,
            }),
            r matches Ok(out) ==> {
                &&& cells_in(out@, *final(region))
                &&& cells_at(out@, region_index(*final(region)), self.advice.output@, 0)
                &&& forward_post(
                    out@,
                    grid_view(weights@),
                    values_view(biases@),
                    cells_view(input@),
                )
            },
    {
        let offset: usize = 0;
        let ghost given = affine_all(grid_view(weights@), values_view(biases@), cells_view(input@));
        let ghost enable = seq![Request::Enable { selector: selector_view(self.q).0, offset: 0 }];
        let ghost placed = parameter_requests(
            self.advice,
            0,
            grid_view(weights@),
            values_view(biases@),
        );
        let enabled = enable_selector(region, &self.q, offset);
        let ghost first = *region;
        proof {
            lemma_served_one(*old(region), first, enable[0], failure_of(enabled));
            assert(region_log(first)[region_log(*old(region)).len() as int] == enable[0]);
        }
        match enabled {
            Ok(_) => {},
            Err(e) => {
                proof {
                    let passed = forward_requests(self.advice, 0, Wiring::Copy, input@, given);
                    lemma_served_more(*old(region), first, enable, placed, Some(e));
                    lemma_served_more(*old(region), first, enable + placed, passed, Some(e));
                    assert(all_refine(given, given));
                    assert(self.requests_of(
                        *old(region),
                        *region,
                        grid_view(weights@),
                        values_view(biases@),
                        input@,
                        Some(e),
                        given,
                    ));
                }
                return Err(e);
            },
        }
        let laid = self.place_parameters(region, offset, weights, biases);
        let ghost second = *region;
        proof {
            lemma_served_then(*old(region), first, second, enable, placed, failure_of(laid));
            assert(region_log(second)[region_log(*old(region)).len() as int] == region_log(
                first,
            )[region_log(*old(region)).len() as int]);
        }
        let params = match laid {
            Ok(params) => params,
            Err(e) => {
                proof {
                    let passed = forward_requests(self.advice, 0, Wiring::Copy, input@, given);
                    lemma_served_more(*old(region), second, enable + placed, passed, Some(e));
                    assert(all_refine(given, given));
                    assert(self.requests_of(
                        *old(region),
                        *region,
                        grid_view(weights@),
                        values_view(biases@),
                        input@,
                        Some(e),
                        given,
                    ));
                }
                return Err(e);
            },
        };
        let ghost output = affine_all(
            grid_cells(params.weights@),
            cells_view(params.biases@),
            cells_view(input@),
        );
        let ghost passed = forward_requests(self.advice, 0, Wiring::Copy, input@, output);
        let forwarded = self.place_forward(region, offset, input, &params, Wiring::Copy);
        proof {
            assert forall|i: int| 0 <= i < output.len() implies refines(
                #[trigger] output[i],
                given[i],
            ) by {
                assert(cells_refine(params.weights@[i]@, values_view(weights@[i]@)));
                lemma_affine_refines(
                    cells_view(params.weights@[i]@),
                    cells_view(input@),
                    cell_value(params.biases@[i]),
                    values_view(weights@[i]@),
                    cells_view(input@),
                    values_view(biases@)[i],
                );
            }
            assert(all_refine(output, given));
            assert(region_log(second) =~= region_log(*old(region)) + (enable + placed));
            lemma_served_then(
                *old(region),
                second,
                *region,
                enable + placed,
                passed,
                failure_of(forwarded),
            );
            assert(region_log(*region)[region_log(*old(region)).len() as int] == region_log(
                second,
            )[region_log(*old(region)).len() as int]);
            if forwarded is Ok {
                assert(region_log(*old(region)) + (enable + placed) + passed =~= region_log(
                    *old(region),
                ) + (enable + placed + passed));
            }
            assert(self.requests_of(
                *old(region),
                *region,
                grid_view(weights@),
                values_view(biases@),
                input@,
                failure_of(forwarded),
                output,
            ));
        }
        let out = match forwarded {
            Ok(out) => out,
            Err(e) => {
                return Err(e);
            },
        };
        proof {
            assert forall|i: int| 0 <= i < out@.len() implies refines(
                cell_value(#[trigger] out@[i]),
                affine_at(
                    grid_view(weights@)[i],
                    cells_view(input@),
                    values_view(biases@)[i],
                ),
            ) by {
                assert(refines(output[i], given[i]));
            }
        }
        Ok(out)
    }

    /// Whether, from state `a` of a region to state `b`, the region was asked
    /// for the first requests of a layout that writes `output` to the output
    /// cells, accepted each but the last, which it refused with `failure`
    /// where that is an error, and was asked for all of them where it refused
    /// none; `output` being, at each index, unknown or `W * input + b`.
    pub open spec fn requests_of(
        &self,
        a: LayoutRegion<'_>,
        b: LayoutRegion<'_>,
        weights: Seq<Seq<Option<nat>>>,
        biases: Seq<Option<nat>>,
        input: Seq<WitnessCell>,
        failure: Option<Error>,
        output: Seq<Option<nat>>,
    ) -> bool {
        &&& all_refine(output, affine_all(weights, biases, cells_view(input)))
        &&& served(a, b, layout_requests(*self, weights, biases, input, output), failure)
        &&& failure is None ==> region_log(b) == region_log(a) + layout_requests(
            *self,
            weights,
            biases,
            input,
            output,
        )
    }

    /// Whether, from state `a` of a region to state `b`, the layer was laid
    /// out as far as the backend accepted: `requests_of` for some output.
    pub open spec fn laid_out(
        &self,
        a: LayoutRegion<'_>,
        b: LayoutRegion<'_>,
        weights: Seq<Seq<Option<nat>>>,
        biases: Seq<Option<nat>>,
        input: Seq<WitnessCell>,
        failure: Option<Error>,
    ) -> bool {
        exists|output: Seq<Option<nat>>|
            self.requests_of(a, b, weights, biases, input, failure, output)
    }

    /// Checks the dimensions of the parameters and encodes them: what a
    /// layout does before it asks anything of a region.
    ///
    /// Fails with `Shape` where the columns, the weights or the biases have
    /// not the layer's dimensions, else with `OutOfRange` where an integer
    /// cannot be encoded.
    pub fn encode_parameters(&self, weights: &Vec<Vec<i32>>, biases: &Vec<i32>) -> (r: Result<
        (Vec<Vec<Option<Fp>>>, Vec<Option<Fp>>),
        LayerError,
    >)
        ensures
            match r {
                Ok((w, b)) => {
                    &&& has_shape(w@, OUT as nat, IN as nat)
                    &&& b.len() == OUT
                    &&& grid_view(w@) == encoded_grid(weights@)
                    &&& values_view(b@) == encoded(biases@)
                },
                Err(e) => e is Shape || e is OutOfRange,
            },
            self.wf() && has_shape(weights@, OUT as nat, IN as nat) && biases.len() == OUT <==> !(r
                matches Err(LayerError::Shape)),
            r matches Err(LayerError::OutOfRange) <==> self.wf() && has_shape(
                weights@,
                OUT as nat,
                IN as nat,
            ) && biases.len() == OUT && !(all_in_range(biases@) && grid_in_range(weights@)),
    {
        if !self.advice.is_well_formed() || biases.len() != OUT || !check_shape(weights, OUT, IN) {
            return Err(LayerError::Shape);
        }
        let b = encode_all(biases)?;
        let w = encode_grid(weights)?;
        proof {
            assert(values_view(b@).len() == b@.len());
            assert forall|i: int| 0 <= i < OUT implies (#[trigger] w@[i]).len() == IN by {
                assert(values_view(w@[i]@).len() == w@[i]@.len());
                assert(encoded(weights@[i]@).len() == weights@[i]@.len());
            }
            assert(grid_view(w@) =~= encoded_grid(weights@));
        }
        Ok((w, b))
    }

    /// Encodes the parameters and writes them to the cells of the weight and
    /// bias columns on the row at `offset`.
    ///
    /// Fails with `Shape` where the columns, the weights or the biases have
    /// not the layer's dimensions, else with `OutOfRange` where an integer
    /// cannot be encoded; in both cases the region is left as it was. Fails
    /// with `Backend` at the first write that the backend refuses, with the
    /// backend's error.
    /// The offset is below the largest `usize`, so that rows can be counted.
    pub fn assign_parameters(
        &self,
        region: &mut LayoutRegion<'_>,
        offset: usize,
        weights: Vec<Vec<i32>>,
        biases: Vec<i32>,
    ) -> (r: Result<Parameters<IN, OUT>, LayerError>)
        requires
            offset < usize::MAX,
        ensures
            same_backend(*old(region), *final(region)),
            served(
                *old(region),
                *final(region),
                parameter_requests(
                    self.advice,
                    offset as nat,
                    encoded_grid(weights@),
                    encoded(biases@),
                ),
                refusal(r),
            ),
            match r {
                Ok(p) => {
                    &&& p.known_in(*final(region))
                    &&& p.placed_at(region_index(*final(region)), self.advice, offset as nat)
                    &&& p.wf()
                    &&& cells_refine(p.biases@, encoded(biases@))
                    &&& forall|i: int|
                        0 <= i < OUT ==> cells_refine(
                            (#[trigger] p.weights@[i])@,
                            encoded(weights@[i]@),
                        )
                    &&& region_log(*final(region)) == region_log(*old(region))
                        + parameter_requests(
                        self.advice,
                        offset as nat,
                        encoded_grid(weights@),
                        encoded(biases@),
                    )
                },
                Err(LayerError::Shape) => *final(region) == *old(region),
                Err(LayerError::OutOfRange) => *final(region) == *old(region),
                Err(LayerError::Backend(_)) => true,
            },
            self.wf() && has_shape(weights@, OUT as nat, IN as nat) && biases.len() == OUT <==> !(r
                matches Err(LayerError::Shape)),
            r matches Err(LayerError::OutOfRange) <==> self.wf() && has_shape(
                weights@,
                OUT as nat,
                IN as nat,
            ) && biases.len() == OUT && !(all_in_range(biases@) && grid_in_range(weights@)),
    {
        proof {
            lemma_served_none(
                *region,
                parameter_requests(
                    self.advice,
                    offset as nat,
                    encoded_grid(weights@),
                    encoded(biases@),
                ),
            );
        }
        let (w, b) = match self.encode_parameters(&weights, &biases) {
            Ok(encoded) => encoded,
            Err(e) => {
                return Err(e);
            },
        };
        proof {
            assert forall|i: int| 0 <= i < OUT implies values_view(#[trigger] w@[i]@) == encoded(
                weights@[i]@,
            ) by {
                assert(grid_view(w@)[i] == encoded_grid(weights@)[i]);
            }
        }
        LayerError::lift(self.place_parameters(region, offset, &w, &b))
    }

    /// Places parameters that were placed before on the row at `offset`, by
    /// equality copy: each parameter cell is copied to the cell of its column
    /// on that row and constrained equal, so that a further forward pass
    /// there runs on the same parameters without encoding them again. The
    /// parameter cells are of the region's backend.
    ///
    /// Fails with `Shape`, and leaves the region as it was, where the columns
    /// or the parameter cells have not the layer's dimensions. Fails with
    /// `Backend` at the first copy that the backend refuses, with the
    /// backend's error.
    /// The offset is below the largest `usize`, so that rows can be counted.
    pub fn tie_parameters(
        &self,
        region: &mut LayoutRegion<'_>,
        offset: usize,
        params: &Parameters<IN, OUT>,
    ) -> (r: Result<Parameters<IN, OUT>, LayerError>)
        requires
            params.known_in(*old(region)),
            offset < usize::MAX,
        ensures
            same_backend(*old(region), *final(region)),
            served(
                *old(region),
                *final(region),
                tie_requests(self.advice, offset as nat, params.weights@, params.biases@),
                refusal(r),
            ),
            match r {
                Ok(p) => {
                    &&& p.known_in(*final(region))
                    &&& p.placed_at(region_index(*final(region)), self.advice, offset as nat)
                    &&& p.wf()
                    &&& cells_refine(p.biases@, cells_view(params.biases@))
                    &&& forall|i: int|
                        0 <= i < OUT ==> cells_refine(
                            (#[trigger] p.weights@[i])@,
                            cells_view(params.weights@[i]@),
                        )
                    &&& region_log(*final(region)) == region_log(*old(region)) + tie_requests(
                        self.advice,
                        offset as nat,
                        params.weights@,
                        params.biases@,
                    )
                },
                Err(LayerError::Shape) => *final(region) == *old(region),
                Err(LayerError::OutOfRange) => false,
                Err(LayerError::Backend(_)) => true,
            },
            self.wf() && params.wf() <==> !(r matches Err(LayerError::Shape)),
    {
        let ghost first = copies(self.advice.biases@, offset as nat, params.biases@);
        let ghost second = grid_copies(
            self.advice.weights@,
            offset as nat,
            params.weights@,
            self.advice.weights@.len(),
        );
        proof {
            lemma_served_none(*region, first + second);
        }
        if !self.advice.is_well_formed() || !params.is_well_formed() {
            return Err(LayerError::Shape);
        }
        let b = match copy_cells(&params.biases, region, &self.advice.biases, offset) {
            Ok(b) => b,
            Err(e) => {
                proof {
                    lemma_served_more(*old(region), *region, first, second, Some(e));
                }
                return Err(LayerError::Backend(e));
            },
        };
        let ghost mid = *region;
        let copied = copy_grid(&params.weights, region, &self.advice.weights, offset);
        proof {
            lemma_served_then(*old(region), mid, *region, first, second, failure_of(copied));
        }
        let w = match copied {
            Ok(w) => w,
            Err(e) => {
                return Err(LayerError::Backend(e));
            },
        };
        proof {
            assert forall|i: int| 0 <= i < OUT implies (#[trigger] w@[i]).len() == IN by {
                assert(cells_refine(w@[i]@, cells_view(params.weights@[i]@)));
            }
            assert((region_log(*old(region)) + first) + second =~= region_log(*old(region)) + (
            first + second));
        }
        Ok(Parameters { weights: w, biases: b })
    }

    /// The forward pass with the input tied by equality copy: each input cell
    /// is copied to the layer's input column on the row at `offset`. The input
    /// cells are of the region's backend.
    ///
    /// See `forward_wired`.
    /// The offset is below the largest `usize`, so that rows can be counted.
    pub fn forward(
        &self,
        region: &mut LayoutRegion<'_>,
        offset: usize,
        input: Vec<WitnessCell>,
        params: Parameters<IN, OUT>,
    ) -> (r: Result<Vec<WitnessCell>, LayerError>)
        requires
            cells_in(input@, *old(region)),
            offset < usize::MAX,
        ensures
            same_backend(*old(region), *final(region)),
            served(
                *old(region),
                *final(region),
                forward_requests(
                    self.advice,
                    offset as nat,
                    Wiring::Copy,
                    input@,
                    affine_all(
                        grid_cells(params.weights@),
                        cells_view(params.biases@),
                        cells_view(input@),
                    ),
                ),
                refusal(r),
            ),
            match r {
                Ok(out) => {
                    &&& cells_in(out@, *final(region))
                    &&& cells_at(
                    out@,
                    region_index(*final(region)),
                    self.advice.output@,
                    offset as nat,
                )
                    &&& forward_post(
                        out@,
                        grid_cells(params.weights@),
                        cells_view(params.biases@),
                        cells_view(input@),
                    )
                    &&& region_log(*final(region)) == region_log(*old(region)) + forward_requests(
                        self.advice,
                        offset as nat,
                        Wiring::Copy,
                        input@,
                        affine_all(
                            grid_cells(params.weights@),
                            cells_view(params.biases@),
                            cells_view(input@),
                        ),
                    )
                },
                Err(LayerError::Shape) => *final(region) == *old(region),
                Err(LayerError::OutOfRange) => false,
                Err(LayerError::Backend(_)) => true,
            },
            self.wf() && params.wf() && input.len() == IN <==> !(r matches Err(LayerError::Shape)),
    {
        self.forward_wired(region, offset, input, params, Wiring::Copy)
    }

    /// The forward pass: links the input cells to the layer as `wiring` says,
    /// computes `W * input + b` on the values that the parameter and input
    /// cells carry, and writes the result to the cells of the output columns
    /// on the row at `offset`. What the output cells carry does not depend on
    /// the wiring. Input cells that are copied are of the region's backend.
    ///
    /// Fails with `Shape`, and leaves the region as it was, where the columns,
    /// the parameter cells or the input have not the layer's dimensions. Fails
    /// with `Backend` at the first copy or write that the backend refuses,
    /// with the backend's error.
    /// The offset is below the largest `usize`, so that rows can be counted.
    pub fn forward_wired(
        &self,
        region: &mut LayoutRegion<'_>,
        offset: usize,
        input: Vec<WitnessCell>,
        params: Parameters<IN, OUT>,
        wiring: Wiring,
    ) -> (r: Result<Vec<WitnessCell>, LayerError>)
        requires
            wiring == Wiring::Copy ==> cells_in(input@, *old(region)),
            offset < usize::MAX,
        ensures
            same_backend(*old(region), *final(region)),
            served(
                *old(region),
                *final(region),
                forward_requests(
                    self.advice,
                    offset as nat,
                    wiring,
                    input@,
                    affine_all(
                        grid_cells(params.weights@),
                        cells_view(params.biases@),
                        cells_view(input@),
                    ),
                ),
                refusal(r),
            ),
            match r {
                Ok(out) => {
                    &&& cells_in(out@, *final(region))
                    &&& cells_at(
                    out@,
                    region_index(*final(region)),
                    self.advice.output@,
                    offset as nat,
                )
                    &&& forward_post(
                        out@,
                        grid_cells(params.weights@),
                        cells_view(params.biases@),
                        cells_view(input@),
                    )
                    &&& region_log(*final(region)) == region_log(*old(region)) + forward_requests(
                        self.advice,
                        offset as nat,
                        wiring,
                        input@,
                        affine_all(
                            grid_cells(params.weights@),
                            cells_view(params.biases@),
                            cells_view(input@),
                        ),
                    )
                },
                Err(LayerError::Shape) => *final(region) == *old(region),
                Err(LayerError::OutOfRange) => false,
                Err(LayerError::Backend(_)) => true,
            },
            self.wf() && params.wf() && input.len() == IN <==> !(r matches Err(LayerError::Shape)),
    {
        proof {
            lemma_served_none(
                *region,
                forward_requests(
                    self.advice,
                    offset as nat,
                    wiring,
                    input@,
                    affine_all(
                        grid_cells(params.weights@),
                        cells_view(params.biases@),
                        cells_view(input@),
                    ),
                ),
            );
        }
        if !self.advice.is_well_formed() || !params.is_well_formed() || input.len() != IN {
            return Err(LayerError::Shape);
        }
        LayerError::lift(self.place_forward(region, offset, &input, &params, wiring))
    }

    /// Lays the layer out on the first row of a region: checks and encodes
    /// the parameters, then enables its gate there and places the
    /// parameters, the input (by equality copy) and the output, in this
    /// order. The region is the one that the backend's layouter hands to the
    /// caller; the selector and the input cells are of its backend.
    ///
    /// Fails with `Shape` where the columns, the weights, the biases or the
    /// input have not the layer's dimensions, else with `OutOfRange` where an
    /// integer cannot be encoded; in both cases the region is left as it was.
    /// Fails with `Backend` at the first request that the backend refuses,
    /// with the backend's error.
    pub fn layout(
        &self,
        region: &mut LayoutRegion<'_>,
        weights: Vec<Vec<i32>>,
        biases: Vec<i32>,
        input: Vec<WitnessCell>,
    ) -> (r: Result<Vec<WitnessCell>, LayerError>)
        requires
            selector_known(self.q, *old(region)),
            cells_in(input@, *old(region)),
        ensures
            same_backend(*old(region), *final(region)),
            self.laid_out(
                *old(region),
                *final(region),
                encoded_grid(weights@),
                encoded(biases@),
                input@,
                refusal(r),
            ) || r matches Err(LayerError::Shape) || r matches Err(LayerError::OutOfRange),
            match r {
                Ok(out) => {
                    &&& cells_in(out@, *final(region))
                    &&& cells_at(out@, region_index(*final(region)), self.advice.output@, 0)
                    &&& forward_post(
                        out@,
                        encoded_grid(weights@),
                        encoded(biases@),
                        cells_view(input@),
                    )
                    &&& region_log(*final(region))[region_log(*old(region)).len() as int] == (
                    Request::Enable { selector: selector_view(self.q).0, offset: 0 })
                },
                Err(LayerError::Shape) => *final(region) == *old(region),
                Err(LayerError::OutOfRange) => *final(region) == *old(region),
                Err(LayerError::Backend(_)) => region_log(*final(region))[region_log(
                    *old(region),
                ).len() as int] == (Request::Enable {
                    selector: selector_view(self.q).0,
                    offset: 0,
                }),
            },
            self.wf() && has_shape(weights@, OUT as nat, IN as nat) && biases.len() == OUT
                && input.len() == IN <==> !(r matches Err(LayerError::Shape)),
            r matches Err(LayerError::OutOfRange) <==> self.wf() && has_shape(
                weights@,
                OUT as nat,
                IN as nat,
            ) && biases.len() == OUT && input.len() == IN && !(all_in_range(biases@)
                && grid_in_range(weights@)),
    {
        if input.len() != IN {
            return Err(LayerError::Shape);
        }
        let (w, b) = match self.encode_parameters(&weights, &biases) {
            Ok(encoded) => encoded,
            Err(e) => {
                return Err(e);
            },
        };
        LayerError::lift(self.layout_rows(region, &w, &b, &input))
    }
}

} // verus!
