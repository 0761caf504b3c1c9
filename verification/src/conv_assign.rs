//! The convolution layer at proving time: in the layer's region, one block of
//! rows for each output channel, with one row for each input channel and one
//! for the output.

use vstd::prelude::*;
use halo2_proofs::plonk::Error;
use pasta_curves::Fp;
use crate::backend::{
    cell_value, enable_selector, failure_of, region_index, region_log, same_backend,
    selector_known, selector_view, AdviceColumn, LayoutRegion, Request, WitnessCell,
};
use crate::cells::{
    assign_grid, cells_refine, grid_assigns, grid_at, grid_in, lemma_served_first,
    lemma_served_more, lemma_served_none, lemma_served_one, lemma_served_then, served,
};
use crate::conv::{add_grids, channel_sum, convolution_grid, stack_view, Geometry};
use crate::conv_config::Config;
use crate::error::{refusal, LayerError};
use crate::field::{grid_view, refines, value_view, values_view};
use crate::tensor::{check_stack, has_shape, stack_shape};

verus! {

/// What holds of the output cells of one filter: they form a grid of the
/// output's dimensions, and each carries no value or the sum over the input
/// channels of the correlation of the channel's kernel and image at its
/// position.
pub open spec fn filter_post(
    cells: Seq<Vec<WitnessCell>>,
    kernels: Seq<Seq<Seq<Option<nat>>>>,
    images: Seq<Seq<Seq<Option<nat>>>>,
    g: Geometry,
    channels: nat,
) -> bool {
    has_shape(cells, g.out_height() as nat, g.out_width() as nat) && forall|oh: int, ow: int|
        0 <= oh < g.out_height() && 0 <= ow < g.out_width() ==> refines(
            cell_value(#[trigger] cells[oh]@[ow]),
            channel_sum(kernels, images, g, oh, ow, channels),
        )
}

/// The grid of the sums over the first `n` channels of the correlation, one
/// for each output position.
pub open spec fn sum_grid(
    kernels: Seq<Seq<Seq<Option<nat>>>>,
    images: Seq<Seq<Seq<Option<nat>>>>,
    g: Geometry,
    n: nat,
) -> Seq<Seq<Option<nat>>> {
    Seq::new(
        g.out_height() as nat,
        |oh: int|
            Seq::new(g.out_width() as nat, |ow: int| channel_sum(kernels, images, g, oh, ow, n)),
    )
}

/// What placing the first `n` input channels from row `base` on asks of a
/// region: for channel `c`, to write its image to the cells of the image
/// columns and then its kernel to the cells of the kernel columns, both on
/// row `base + c`.
pub open spec fn channel_requests(
    image_columns: Seq<Vec<AdviceColumn>>,
    kernel_columns: Seq<Vec<AdviceColumn>>,
    base: nat,
    images: Seq<Seq<Seq<Option<nat>>>>,
    kernels: Seq<Seq<Seq<Option<nat>>>>,
    n: nat,
) -> Seq<Request>
    decreases n,
{
    if n == 0 {
        Seq::empty()
    } else {
        channel_requests(image_columns, kernel_columns, base, images, kernels, (n - 1) as nat)
            + grid_assigns(
            image_columns,
            (base + n - 1) as nat,
            images[n - 1],
            image_columns.len(),
        ) + grid_assigns(
            kernel_columns,
            (base + n - 1) as nat,
            kernels[n - 1],
            kernel_columns.len(),
        )
    }
}

/// After `lead`, the first of the requests of the first `m` channels are the
/// first of the requests of the first `n` channels and of `rest`, where `m`
/// is no more than `n`.
pub proof fn lemma_served_channels(
    a: LayoutRegion<'_>,
    b: LayoutRegion<'_>,
    lead: Seq<Request>,
    image_columns: Seq<Vec<AdviceColumn>>,
    kernel_columns: Seq<Vec<AdviceColumn>>,
    base: nat,
    images: Seq<Seq<Seq<Option<nat>>>>,
    kernels: Seq<Seq<Seq<Option<nat>>>>,
    m: nat,
    n: nat,
    rest: Seq<Request>,
    failure: Option<Error>,
)
    requires
        m <= n,
        served(
            a,
            b,
            lead + channel_requests(image_columns, kernel_columns, base, images, kernels, m),
            failure,
        ),
    ensures
        served(
            a,
            b,
            lead + channel_requests(image_columns, kernel_columns, base, images, kernels, n) + rest,
            failure,
        ),
    decreases n,
{
    let all = channel_requests(image_columns, kernel_columns, base, images, kernels, n);
    if m < n {
        let c = (n - 1) as nat;
        let done = channel_requests(image_columns, kernel_columns, base, images, kernels, c);
        let first = grid_assigns(image_columns, base + c, images[c as int], image_columns.len());
        let second = grid_assigns(kernel_columns, base + c, kernels[c as int], kernel_columns.len());
        lemma_served_channels(
            a,
            b,
            lead,
            image_columns,
            kernel_columns,
            base,
            images,
            kernels,
            m,
            c,
            first + second,
            failure,
        );
        assert(lead + done + (first + second) =~= lead + all);
    }
    lemma_served_more(a, b, lead + all, rest, failure);
}

impl<
    const KERNEL_HEIGHT: usize,
    const KERNEL_WIDTH: usize,
    const OUT_CHANNELS: usize,
    const STRIDE: usize,
    const IMAGE_HEIGHT: usize,
    const IMAGE_WIDTH: usize,
    const IN_CHANNELS: usize,
    const PADDING: usize,
> Config<
    KERNEL_HEIGHT,
    KERNEL_WIDTH,
    OUT_CHANNELS,
    STRIDE,
    IMAGE_HEIGHT,
    IMAGE_WIDTH,
    IN_CHANNELS,
    PADDING,
> {
    /// Whether there is one image of the layer's dimensions for each input
    /// channel.
    pub open spec fn images_fit(image: Seq<Vec<Vec<Option<Fp>>>>) -> bool {
        stack_shape(image, IN_CHANNELS as nat, IMAGE_HEIGHT as nat, IMAGE_WIDTH as nat)
    }

    /// Whether there is one kernel of the layer's dimensions for each input
    /// channel.
    pub open spec fn kernels_fit(kernel: Seq<Vec<Vec<Option<Fp>>>>) -> bool {
        stack_shape(kernel, IN_CHANNELS as nat, KERNEL_HEIGHT as nat, KERNEL_WIDTH as nat)
    }

    /// Whether there is one stack of kernels for each output channel.
    pub open spec fn filters_fit(kernels: Seq<Vec<Vec<Vec<Option<Fp>>>>>) -> bool {
        kernels.len() == OUT_CHANNELS && forall|f: int|
            0 <= f < OUT_CHANNELS ==> Self::kernels_fit((#[trigger] kernels[f])@)
    }

    /// What placing one filter from row `base` on asks of a region: to set
    /// the layer's selector on row `base`, to place the input channels from
    /// there on, and to write the sums over the channels to the cells of the
    /// output columns on the row after the last channel.
    pub open spec fn filter_requests(
        &self,
        base: nat,
        images: Seq<Seq<Seq<Option<nat>>>>,
        kernels: Seq<Seq<Seq<Option<nat>>>>,
    ) -> Seq<Request> {
        seq![Request::Enable { selector: selector_view(self.selector).0, offset: base }]
            + channel_requests(
            self.image.columns@,
            self.kernel.columns@,
            base,
            images,
            kernels,
            IN_CHANNELS as nat,
        ) + grid_assigns(
            self.output.columns@,
            base + IN_CHANNELS as nat,
            sum_grid(kernels, images, Self::shape(), IN_CHANNELS as nat),
            self.output.columns@.len(),
        )
    }

    /// The row on which the filter of output channel `f` begins: each filter
    /// takes one row for each input channel and one for its output.
    pub open spec fn filter_row(f: nat) -> nat {
        f * (IN_CHANNELS as nat + 1)
    }

    /// What assigning the first `n` output channels asks of a region: to
    /// place the filter of each, in their order, channel `f` from row
    /// `filter_row(f)` on, with the images and the channel's kernels.
    pub open spec fn layer_requests(
        &self,
        images: Seq<Seq<Seq<Option<nat>>>>,
        kernels: Seq<Vec<Vec<Vec<Option<Fp>>>>>,
        n: nat,
    ) -> Seq<Request>
        decreases n,
    {
        if n == 0 {
            Seq::empty()
        } else {
            self.layer_requests(images, kernels, (n - 1) as nat) + self.filter_requests(
                Self::filter_row((n - 1) as nat),
                images,
                stack_view(kernels[n - 1]@),
            )
        }
    }

    /// The first of the requests of the first `m` output channels are the
    /// first of the requests of the first `n`, where `m` is no more than `n`.
    pub proof fn lemma_served_filters(
        &self,
        a: LayoutRegion<'_>,
        b: LayoutRegion<'_>,
        images: Seq<Seq<Seq<Option<nat>>>>,
        kernels: Seq<Vec<Vec<Vec<Option<Fp>>>>>,
        m: nat,
        n: nat,
        failure: Option<Error>,
    )
        requires
            m <= n,
            served(a, b, self.layer_requests(images, kernels, m), failure),
        ensures
            served(a, b, self.layer_requests(images, kernels, n), failure),
        decreases n,
    {
        if m < n {
            self.lemma_served_filters(a, b, images, kernels, m, (n - 1) as nat, failure);
            lemma_served_more(
                a,
                b,
                self.layer_requests(images, kernels, (n - 1) as nat),
                self.filter_requests(
                    Self::filter_row((n - 1) as nat),
                    images,
                    stack_view(kernels[n - 1]@),
                ),
                failure,
            );
        }
    }

    /// Places one filter in a region from row `base` on: enables the layer's
    /// gate on row `base`, writes image and kernel of input channel `c` to
    /// row `base + c`, and the sum over the channels of their correlation to
    /// the row after the last channel. Stops at the first request that the
    /// backend refuses, with the backend's error; the selector at least is
    /// asked for. The selector is of the region's backend, and the rows can
    /// be counted.
    pub fn place_filter(
        &self,
        region: &mut LayoutRegion<'_>,
        base: usize,
        image: &Vec<Vec<Vec<Option<Fp>>>>,
        kernel: &Vec<Vec<Vec<Option<Fp>>>>,
    ) -> (r: Result<Vec<Vec<WitnessCell>>, Error>)
        requires
            self.wf(),
            Self::images_fit(image@),
            Self::kernels_fit(kernel@),
            selector_known(self.selector, *old(region)),
            base + IN_CHANNELS < usize::MAX,
        ensures
            same_backend(*old(region), *final(region)),
            served(
                *old(region),
                *final(region),
                self.filter_requests(base as nat, stack_view(image@), stack_view(kernel@)),
                failure_of(r),
            ),
            region_log(*final(region)).len() > region_log(*old(region)).len(),
            region_log(*final(region))[region_log(*old(region)).len() as int] == (Request::Enable {
                selector: selector_view(self.selector).0,
                offset: base as nat,
            }),
            r matches Ok(cells) ==> {
                &&& grid_in(cells@, *final(region))
                &&& grid_at(
                    cells@,
                    region_index(*final(region)),
                    self.output.columns@,
                    (base + IN_CHANNELS) as nat,
                )
                &&& filter_post(
                    cells@,
                    stack_view(kernel@),
                    stack_view(image@),
                    Self::shape(),
                    IN_CHANNELS as nat,
                )
                &&& region_log(*final(region)) == region_log(*old(region)) + self.filter_requests(
                    base as nat,
                    stack_view(image@),
                    stack_view(kernel@),
                )
            },
    {
        let g = Self::geometry();
        let ghost images = stack_view(image@);
        let ghost kernels = stack_view(kernel@);
        let ghost n = IN_CHANNELS as nat;
        let ghost start = base as nat;
        let ghost enable = seq![
            Request::Enable { selector: selector_view(self.selector).0, offset: start },
        ];
        let ghost sums = sum_grid(kernels, images, g, n);
        let ghost last = grid_assigns(
            self.output.columns@,
            start + n,
            sums,
            self.output.columns@.len(),
        );
        let ghost asked = self.filter_requests(start, images, kernels);
        let mut offset: usize = 0;
        let enabled = enable_selector(region, &self.selector, base);
        proof {
            lemma_served_one(*old(region), *region, enable[0], failure_of(enabled));
            assert(enable + channel_requests(
                self.image.columns@,
                self.kernel.columns@,
                start,
                images,
                kernels,
                0,
            ) =~= enable);
            assert(asked[0] == enable[0]);
        }
        match enabled {
            Ok(_) => {},
            Err(e) => {
                proof {
                    lemma_served_channels(
                        *old(region),
                        *region,
                        enable,
                        self.image.columns@,
                        self.kernel.columns@,
                        start,
                        images,
                        kernels,
                        0,
                        n,
                        last,
                        Some(e),
                    );
                    lemma_served_first(*old(region), *region, asked, Some(e));
                }
                return Err(e);
            },
        }
        let mut sum = convolution_grid(&g, &kernel[0], &image[0]);
        loop
            invariant_except_break
                offset < IN_CHANNELS,
                served(
                    *old(region),
                    *region,
                    enable + channel_requests(
                        self.image.columns@,
                        self.kernel.columns@,
                        start,
                        images,
                        kernels,
                        offset as nat,
                    ),
                    None,
                ),
                region_log(*region) == region_log(*old(region)) + (enable + channel_requests(
                    self.image.columns@,
                    self.kernel.columns@,
                    start,
                    images,
                    kernels,
                    offset as nat,
                )),
                has_shape(sum@, g.out_height() as nat, g.out_width() as nat),
                forall|oh: int, ow: int|
                    0 <= oh < g.out_height() && 0 <= ow < g.out_width() ==> value_view(
                        #[trigger] sum@[oh]@[ow],
                    ) == channel_sum(kernels, images, g, oh, ow, (offset + 1) as nat),
            invariant
                self.wf(),
                same_backend(*old(region), *region),
                g == Self::shape(),
                n == IN_CHANNELS,
                start == base,
                base + IN_CHANNELS < usize::MAX,
                images == stack_view(image@),
                kernels == stack_view(kernel@),
                Self::images_fit(image@),
                Self::kernels_fit(kernel@),
                enable == seq![
                    Request::Enable { selector: selector_view(self.selector).0, offset: start },
                ],
                sums == sum_grid(kernels, images, g, n),
                last == grid_assigns(
                    self.output.columns@,
                    start + n,
                    sums,
                    self.output.columns@.len(),
                ),
                asked == self.filter_requests(start, images, kernels),
                asked[0] == enable[0],
            ensures
                offset == IN_CHANNELS,
                served(
                    *old(region),
                    *region,
                    enable + channel_requests(
                        self.image.columns@,
                        self.kernel.columns@,
                        start,
                        images,
                        kernels,
                        n,
                    ),
                    None,
                ),
                region_log(*region) == region_log(*old(region)) + (enable + channel_requests(
                    self.image.columns@,
                    self.kernel.columns@,
                    start,
                    images,
                    kernels,
                    n,
                )),
                has_shape(sum@, g.out_height() as nat, g.out_width() as nat),
                forall|oh: int, ow: int|
                    0 <= oh < g.out_height() && 0 <= ow < g.out_width() ==> value_view(
                        #[trigger] sum@[oh]@[ow],
                    ) == channel_sum(kernels, images, g, oh, ow, n),
            decreases IN_CHANNELS - offset,
        {
            let ghost c = offset as nat;
            let ghost done = channel_requests(
                self.image.columns@,
                self.kernel.columns@,
                start,
                images,
                kernels,
                c,
            );
            let ghost first = grid_assigns(
                self.image.columns@,
                start + c,
                images[offset as int],
                self.image.columns@.len(),
            );
            let ghost second = grid_assigns(
                self.kernel.columns@,
                start + c,
                kernels[offset as int],
                self.kernel.columns@.len(),
            );
            let ghost mid = *region;
            proof {
                assert((enable + done) + first + second =~= enable + channel_requests(
                    self.image.columns@,
                    self.kernel.columns@,
                    start,
                    images,
                    kernels,
                    c + 1,
                ));
            }
            let row = base + offset;
            let pictured = assign_grid(region, &self.image.columns, row, &image[offset]);
            proof {
                lemma_served_then(
                    *old(region),
                    mid,
                    *region,
                    enable + done,
                    first,
                    failure_of(pictured),
                );
            }
            match pictured {
                Ok(_) => {},
                Err(e) => {
                    proof {
                        lemma_served_more(
                            *old(region),
                            *region,
                            (enable + done) + first,
                            second,
                            Some(e),
                        );
                        lemma_served_channels(
                            *old(region),
                            *region,
                            enable,
                            self.image.columns@,
                            self.kernel.columns@,
                            start,
                            images,
                            kernels,
                            c + 1,
                            n,
                            last,
                            Some(e),
                        );
                        lemma_served_first(*old(region), *region, asked, Some(e));
                    }
                    return Err(e);
                },
            }
            let ghost half = *region;
            proof {
                assert(region_log(half) =~= region_log(*old(region)) + ((enable + done) + first));
            }
            let weighed = assign_grid(region, &self.kernel.columns, row, &kernel[offset]);
            proof {
                lemma_served_then(
                    *old(region),
                    half,
                    *region,
                    (enable + done) + first,
                    second,
                    failure_of(weighed),
                );
            }
            match weighed {
                Ok(_) => {},
                Err(e) => {
                    proof {
                        lemma_served_channels(
                            *old(region),
                            *region,
                            enable,
                            self.image.columns@,
                            self.kernel.columns@,
                            start,
                            images,
                            kernels,
                            c + 1,
                            n,
                            last,
                            Some(e),
                        );
                        lemma_served_first(*old(region), *region, asked, Some(e));
                    }
                    return Err(e);
                },
            }
            proof {
                assert((region_log(*old(region)) + ((enable + done) + first)) + second
                    =~= region_log(*old(region)) + ((enable + done) + first + second));
            }
            offset = offset + 1;
            if offset >= IN_CHANNELS {
                break ;
            }
            let output = convolution_grid(&g, &kernel[offset], &image[offset]);
            sum = add_grids(&sum, &output);
        }
        let ghost filled = *region;
        proof {
            assert(grid_view(sum@) =~~= sums);
        }
        let written = assign_grid(region, &self.output.columns, base + offset, &sum);
        proof {
            let done = channel_requests(
                self.image.columns@,
                self.kernel.columns@,
                start,
                images,
                kernels,
                n,
            );
            lemma_served_then(
                *old(region),
                filled,
                *region,
                enable + done,
                last,
                failure_of(written),
            );
            assert(asked == enable + done + last);
            if written is Ok {
                assert((region_log(*old(region)) + (enable + done)) + last =~= region_log(
                    *old(region),
                ) + asked);
            }
            lemma_served_first(*old(region), *region, asked, failure_of(written));
        }
        let cells = match written {
            Ok(cells) => cells,
            Err(e) => {
                return Err(e);
            },
        };
        proof {
            assert forall|oh: int| 0 <= oh < g.out_height() implies (#[trigger] cells@[oh]).len()
                == g.out_width() by {
                assert(cells_refine(cells@[oh]@, values_view(sum@[oh]@)));
            }
            assert forall|oh: int, ow: int|
                0 <= oh < g.out_height() && 0 <= ow < g.out_width() implies refines(
                cell_value(#[trigger] cells@[oh]@[ow]),
                channel_sum(
                    stack_view(kernel@),
                    stack_view(image@),
                    g,
                    oh,
                    ow,
                    IN_CHANNELS as nat,
                ),
            ) by {
                assert(cells_refine(cells@[oh]@, values_view(sum@[oh]@)));
                assert(values_view(sum@[oh]@)[ow] == value_view(sum@[oh]@[ow]));
            }
        }
        Ok(cells)
    }

    /// Assigns the layer in a region: one filter for each output channel, in
    /// the order of the channels, channel `f` from row `filter_row(f)` on,
    /// each with the images of all input channels and the output channel's
    /// kernels. Returns the output cells of each output channel. The region
    /// is the one that the backend's layouter hands to the caller; the
    /// selector is of its backend, and the rows can be counted.
    ///
    /// Fails with `Shape`, and leaves the region as it was, where the
    /// configuration, the images or the kernels have not the layer's
    /// dimensions or channel counts. Fails with `Backend` at the first
    /// request that the backend refuses, with the backend's error; with no
    /// output channel the region is asked for nothing.
    pub fn assign(
        &self,
        region: &mut LayoutRegion<'_>,
        image: Vec<Vec<Vec<Option<Fp>>>>,
        kernels: Vec<Vec<Vec<Vec<Option<Fp>>>>>,
    ) -> (r: Result<Vec<Vec<Vec<WitnessCell>>>, LayerError>)
        requires
            selector_known(self.selector, *old(region)),
            OUT_CHANNELS * (IN_CHANNELS + 1) < usize::MAX,
        ensures
            same_backend(*old(region), *final(region)),
            served(
                *old(region),
                *final(region),
                self.layer_requests(stack_view(image@), kernels@, OUT_CHANNELS as nat),
                refusal(r),
            ),
            match r {
                Ok(out) => {
                    &&& out.len() == OUT_CHANNELS
                    &&& forall|f: int|
                        0 <= f < OUT_CHANNELS ==> filter_post(
                            (#[trigger] out@[f])@,
                            stack_view(kernels@[f]@),
                            stack_view(image@),
                            Self::shape(),
                            IN_CHANNELS as nat,
                        )
                    &&& forall|f: int|
                        0 <= f < OUT_CHANNELS ==> grid_in((#[trigger] out@[f])@, *final(region))
                            && grid_at(
                            out@[f]@,
                            region_index(*final(region)),
                            self.output.columns@,
                            Self::filter_row(f as nat) + IN_CHANNELS as nat,
                        )
                    &&& region_log(*final(region)) == region_log(*old(region))
                        + self.layer_requests(stack_view(image@), kernels@, OUT_CHANNELS as nat)
                },
                Err(LayerError::Shape) => *final(region) == *old(region),
                Err(LayerError::OutOfRange) => false,
                Err(LayerError::Backend(_)) => true,
            },
            self.wf() && Self::images_fit(image@) && Self::filters_fit(kernels@) <==> !(r matches Err(
                LayerError::Shape,
            )),
    {
        let ghost images = stack_view(image@);
        proof {
            lemma_served_none(*region, self.layer_requests(images, kernels@, OUT_CHANNELS as nat));
        }
        if !self.is_well_formed() || !check_stack(&image, IN_CHANNELS, IMAGE_HEIGHT, IMAGE_WIDTH)
            || kernels.len() != OUT_CHANNELS {
            return Err(LayerError::Shape);
        }
        let mut f: usize = 0;
        while f < OUT_CHANNELS
            invariant
                f <= OUT_CHANNELS,
                kernels.len() == OUT_CHANNELS,
                *region == *old(region),
                forall|k: int| 0 <= k < f ==> Self::kernels_fit((#[trigger] kernels@[k])@),
            decreases OUT_CHANNELS - f,
        {
            if !check_stack(&kernels[f], IN_CHANNELS, KERNEL_HEIGHT, KERNEL_WIDTH) {
                return Err(LayerError::Shape);
            }
            f = f + 1;
        }
        let mut out: Vec<Vec<Vec<WitnessCell>>> = Vec::new();
        let mut f: usize = 0;
        proof {
            assert(region_log(*region) + self.layer_requests(images, kernels@, 0) =~= region_log(
                *region,
            ));
        }
        while f < OUT_CHANNELS
            invariant
                f <= OUT_CHANNELS,
                self.wf(),
                images == stack_view(image@),
                Self::images_fit(image@),
                Self::filters_fit(kernels@),
                OUT_CHANNELS * (IN_CHANNELS + 1) < usize::MAX,
                same_backend(*old(region), *region),
                selector_known(self.selector, *old(region)),
                served(
                    *old(region),
                    *region,
                    self.layer_requests(images, kernels@, f as nat),
                    None,
                ),
                region_log(*region) == region_log(*old(region)) + self.layer_requests(
                    images,
                    kernels@,
                    f as nat,
                ),
                out.len() == f,
                forall|k: int|
                    0 <= k < f ==> filter_post(
                        (#[trigger] out@[k])@,
                        stack_view(kernels@[k]@),
                        stack_view(image@),
                        Self::shape(),
                        IN_CHANNELS as nat,
                    ),
                forall|k: int|
                    0 <= k < f ==> grid_in((#[trigger] out@[k])@, *region) && grid_at(
                        out@[k]@,
                        region_index(*old(region)),
                        self.output.columns@,
                        Self::filter_row(k as nat) + IN_CHANNELS as nat,
                    ),
            decreases OUT_CHANNELS - f,
        {
            proof {
                assert(f * (IN_CHANNELS + 1) + IN_CHANNELS < OUT_CHANNELS * (IN_CHANNELS + 1))
                    by (nonlinear_arith)
                    requires
                        f < OUT_CHANNELS,
                ;
                assert(IN_CHANNELS + 1 <= OUT_CHANNELS * (IN_CHANNELS + 1)) by (nonlinear_arith)
                    requires
                        f < OUT_CHANNELS,
                ;
            }
            let base = f * (IN_CHANNELS + 1);
            let ghost mid = *region;
            let ghost done = self.layer_requests(images, kernels@, f as nat);
            let ghost next = self.filter_requests(base as nat, images, stack_view(kernels@[f as int]@));
            let placed = self.place_filter(region, base, &image, &kernels[f]);
            proof {
                lemma_served_then(*old(region), mid, *region, done, next, failure_of(placed));
                assert(done + next == self.layer_requests(images, kernels@, (f + 1) as nat));
            }
            match placed {
                Ok(cells) => {
                    proof {
                        assert((region_log(*old(region)) + done) + next =~= region_log(
                            *old(region),
                        ) + (done + next));
                    }
                    out.push(cells);
                },
                Err(e) => {
                    proof {
                        self.lemma_served_filters(
                            *old(region),
                            *region,
                            images,
                            kernels@,
                            (f + 1) as nat,
                            OUT_CHANNELS as nat,
                            Some(e),
                        );
                    }
                    return Err(LayerError::Backend(e));
                },
            }
            f = f + 1;
        }
        Ok(out)
    }
}

} // verus!
