//! The convolution layer in the constraint system: the columns of kernel,
//! image and output, and, for each output channel, a gate that ties the output
//! to the sum over the input channels of the correlation of kernel and image.
//! The gates of all output channels are alike and share one selector.
//!
//! One row holds one input channel: its image and its kernel. The row after
//! the last channel holds the output. The layer's gate reads all of them from
//! the first row, each at its rotation.

use vstd::prelude::*;
use vstd::arithmetic::div_mod::lemma_fundamental_div_mod_converse;
use halo2_proofs::plonk::{Constraints, Expression, Selector};
use pasta_curves::Fp;
use crate::affine_config::{columns, exprs_view};
use crate::backend::{
    cells_advice, column_index, enable_equality, expr_poly, new_selector, selector_view,
    system_model, AdviceColumn, GateCells, System, SystemModel,
};
use crate::cells::{alloc_grid, columns_below, grid_below, query_grid};
use crate::conv::Geometry;
use crate::error::LayerError;
use crate::gate::{advice, guarded_all, has_simple_selector, Poly};
use crate::tensor::{check_shape, has_shape};
use crate::term::{
    add_term_grids, all_usable, correlate, correlation_model, grid_models, grid_usable, Term,
};

verus! {

/// The columns of an image: one for each of its entries.
#[derive(Clone)]
pub struct ImageConfig {
    pub columns: Vec<Vec<AdviceColumn>>,
}

/// The columns of a kernel: one for each of its entries.
#[derive(Clone)]
pub struct KernelConfig {
    pub columns: Vec<Vec<AdviceColumn>>,
}

/// The configuration of a convolution layer: its enable flag and the columns
/// of kernel, image and output.
#[derive(Clone)]
pub struct Config<
    const KERNEL_HEIGHT: usize,
    const KERNEL_WIDTH: usize,
    const OUT_CHANNELS: usize,
    const STRIDE: usize,
    const IMAGE_HEIGHT: usize,
    const IMAGE_WIDTH: usize,
    const IN_CHANNELS: usize,
    const PADDING: usize,
> {
    pub selector: Selector,
    pub kernel: KernelConfig,
    pub image: ImageConfig,
    pub output: ImageConfig,
}

/// The columns of a convolution layer, by their indices.
pub struct ConvLayout {
    pub kernel: Seq<Seq<nat>>,
    pub image: Seq<Seq<nat>>,
    pub output: Seq<Seq<nat>>,
}

/// The column index of each of a grid of columns.
pub open spec fn grid_columns(g: Seq<Vec<AdviceColumn>>) -> Seq<Seq<nat>> {
    Seq::new(g.len(), |i: int| columns(g[i]@))
}

/// The polynomial of each of a grid of expressions.
pub open spec fn grid_polys(g: Seq<Vec<Expression<Fp>>>) -> Seq<Seq<Poly>> {
    Seq::new(g.len(), |i: int| exprs_view(g[i]@))
}

/// The cells of a grid of columns, read at `rotation`.
pub open spec fn cell_polys(cols: Seq<Seq<nat>>, rotation: int) -> Seq<Seq<Poly>> {
    Seq::new(cols.len(), |i: int| Seq::new(cols[i].len(), |j: int| advice(cols[i][j], rotation)))
}

/// Whether no simple selector occurs in any polynomial of the grid.
pub open spec fn grid_plain(g: Seq<Seq<Poly>>) -> bool {
    forall|i: int, j: int|
        0 <= i < g.len() && 0 <= j < g[i].len() ==> !has_simple_selector(#[trigger] g[i][j])
}

/// The sum of the products of kernel entry and image entry over the taps that
/// meet the image, taken in reading order up to, not including, kernel entry
/// `(kh, kw)`, as a polynomial.
pub open spec fn conv_poly_acc(
    kernel: Seq<Seq<Poly>>,
    image: Seq<Seq<Poly>>,
    g: Geometry,
    oh: int,
    ow: int,
    kh: nat,
    kw: nat,
) -> Poly
    decreases kh, kw,
{
    if kw == 0 {
        if kh == 0 {
            Poly::Constant(0)
        } else {
            conv_poly_acc(kernel, image, g, oh, ow, (kh - 1) as nat, g.kernel_width as nat)
        }
    } else {
        let before = conv_poly_acc(kernel, image, g, oh, ow, kh, (kw - 1) as nat);
        if g.inside(oh, ow, kh as int, kw - 1) {
            Poly::Sum(
                Box::new(before),
                Box::new(
                    Poly::Product(
                        Box::new(kernel[kh as int][kw - 1]),
                        Box::new(image[g.tap(oh, kh as int)][g.tap(ow, kw - 1)]),
                    ),
                ),
            )
        } else {
            before
        }
    }
}

/// The correlation at output position `(oh, ow)`, as a polynomial.
pub open spec fn conv_poly_at(
    kernel: Seq<Seq<Poly>>,
    image: Seq<Seq<Poly>>,
    g: Geometry,
    oh: int,
    ow: int,
) -> Poly {
    conv_poly_acc(kernel, image, g, oh, ow, g.kernel_height as nat, 0)
}

/// The sum over the first `n` channels of the correlation of kernel and
/// image, channel `c` read at rotation `c`.
pub open spec fn channel_poly(l: ConvLayout, g: Geometry, oh: int, ow: int, n: nat) -> Poly
    decreases n,
{
    if n == 0 {
        Poly::Constant(0)
    } else if n == 1 {
        conv_poly_at(cell_polys(l.kernel, 0), cell_polys(l.image, 0), g, oh, ow)
    } else {
        Poly::Sum(
            Box::new(channel_poly(l, g, oh, ow, (n - 1) as nat)),
            Box::new(
                conv_poly_at(cell_polys(l.kernel, n - 1), cell_polys(l.image, n - 1), g, oh, ow),
            ),
        )
    }
}

/// The constraint on output `(oh, ow)`: the negated output, read at rotation
/// `channels`, plus the sum over the channels of the correlation.
pub open spec fn conv_constraint(l: ConvLayout, g: Geometry, channels: nat, oh: int, ow: int) -> Poly {
    Poly::Sum(
        Box::new(Poly::Negated(Box::new(advice(l.output[oh][ow], channels as int)))),
        Box::new(channel_poly(l, g, oh, ow, channels)),
    )
}

/// The constraints of the layer's gate: one for each output position, row
/// after row.
pub open spec fn conv_polys(l: ConvLayout, g: Geometry, channels: nat) -> Seq<Poly> {
    Seq::new(
        (g.out_height() * g.out_width()) as nat,
        |t: int| conv_constraint(l, g, channels, t / g.out_width(), t % g.out_width()),
    )
}

/// On expressions, the correlation on terms is the correlation as a
/// polynomial.
pub proof fn lemma_correlation_polys(
    kernel: Seq<Seq<Poly>>,
    image: Seq<Seq<Poly>>,
    g: Geometry,
    oh: int,
    ow: int,
    kh: nat,
    kw: nat,
)
    ensures
        correlation_model::<Expression<Fp>>(kernel, image, g, oh, ow, kh, kw) == conv_poly_acc(
            kernel,
            image,
            g,
            oh,
            ow,
            kh,
            kw,
        ),
    decreases kh, kw,
{
    if kw == 0 {
        if kh > 0 {
            lemma_correlation_polys(
                kernel,
                image,
                g,
                oh,
                ow,
                (kh - 1) as nat,
                g.kernel_width as nat,
            );
        }
    } else {
        lemma_correlation_polys(kernel, image, g, oh, ow, kh, (kw - 1) as nat);
    }
}

/// The correlation of a kernel of expressions with an image of expressions:
/// the grid of `out_height` by `out_width` sums of products.
pub fn convolution_exprs(
    g: &Geometry,
    kernel: &Vec<Vec<Expression<Fp>>>,
    image: &Vec<Vec<Expression<Fp>>>,
) -> (out: Vec<Vec<Expression<Fp>>>)
    requires
        g.valid(),
        has_shape(kernel@, g.kernel_height as nat, g.kernel_width as nat),
        has_shape(image@, g.image_height as nat, g.image_width as nat),
        grid_plain(grid_polys(kernel@)),
        grid_plain(grid_polys(image@)),
    ensures
        has_shape(out@, g.out_height() as nat, g.out_width() as nat),
        forall|oh: int, ow: int|
            0 <= oh < g.out_height() && 0 <= ow < g.out_width() ==> expr_poly(
                #[trigger] out@[oh]@[ow],
            ) == conv_poly_at(grid_polys(kernel@), grid_polys(image@), *g, oh, ow),
        grid_plain(grid_polys(out@)),
{
    proof {
        lemma_plain_usable(kernel@);
        lemma_plain_usable(image@);
    }
    let out = correlate(g, kernel, image);
    proof {
        lemma_plain_usable(out@);
        assert(grid_models(kernel@) =~~= grid_polys(kernel@));
        assert(grid_models(image@) =~~= grid_polys(image@));
        assert forall|oh: int, ow: int|
            0 <= oh < g.out_height() && 0 <= ow < g.out_width() implies expr_poly(
            #[trigger] out@[oh]@[ow],
        ) == conv_poly_at(grid_polys(kernel@), grid_polys(image@), *g, oh, ow) by {
            lemma_correlation_polys(
                grid_polys(kernel@),
                grid_polys(image@),
                *g,
                oh,
                ow,
                g.kernel_height as nat,
                0,
            );
        }
    }
    out
}

/// A grid of expressions may enter sums and products exactly when no simple
/// selector occurs in its polynomials.
pub proof fn lemma_plain_usable(g: Seq<Vec<Expression<Fp>>>)
    ensures
        grid_usable(g) <==> grid_plain(grid_polys(g)),
{
    if grid_usable(g) {
        assert forall|i: int, j: int|
            0 <= i < grid_polys(g).len() && 0 <= j < grid_polys(g)[i].len()
            implies !has_simple_selector(#[trigger] grid_polys(g)[i][j]) by {
            assert(all_usable(g[i]@));
            assert(g[i]@[j].usable());
        }
    }
    if grid_plain(grid_polys(g)) {
        assert forall|i: int| 0 <= i < g.len() implies all_usable((#[trigger] g[i])@) by {
            assert forall|j: int| 0 <= j < g[i]@.len() implies (#[trigger] g[i]@[j]).usable() by {
                assert(!has_simple_selector(grid_polys(g)[i][j]));
            }
        }
    }
}

/// Adds two grids of expressions of the same dimensions entry by entry.
pub fn add_expr_grids(a: &Vec<Vec<Expression<Fp>>>, b: &Vec<Vec<Expression<Fp>>>) -> (r: Vec<
    Vec<Expression<Fp>>,
>)
    requires
        a.len() == b.len(),
        forall|i: int| 0 <= i < a.len() ==> (#[trigger] a@[i]).len() == b@[i].len(),
        grid_plain(grid_polys(a@)),
        grid_plain(grid_polys(b@)),
    ensures
        r.len() == a.len(),
        forall|i: int| 0 <= i < a.len() ==> (#[trigger] r@[i]).len() == a@[i].len(),
        forall|i: int, j: int|
            0 <= i < a.len() && 0 <= j < a@[i].len() ==> expr_poly(#[trigger] r@[i]@[j])
                == Poly::Sum(Box::new(expr_poly(a@[i]@[j])), Box::new(expr_poly(b@[i]@[j]))),
        grid_plain(grid_polys(r@)),
{
    proof {
        lemma_plain_usable(a@);
        lemma_plain_usable(b@);
    }
    let r = add_term_grids(a, b);
    proof {
        lemma_plain_usable(r@);
    }
    r
}

/// `n` times the same constraints.
pub open spec fn repeated(polys: Seq<Poly>, n: nat) -> Seq<Seq<Poly>> {
    Seq::new(n, |f: int| polys)
}

/// The indices of the columns of a vector.
pub open spec fn column_set(v: Seq<AdviceColumn>) -> Set<nat> {
    Set::new(|c: nat| exists|i: int| 0 <= i < v.len() && column_index(#[trigger] v[i]) == c)
}

/// The columns of the first `t + 1` entries are those of the first `t` and
/// the column of entry `t`.
pub proof fn lemma_column_set_step(v: Seq<AdviceColumn>, t: int)
    requires
        0 <= t < v.len(),
    ensures
        column_set(v.take(t + 1)) == column_set(v.take(t)).insert(column_index(v[t])),
{
    let more = v.take(t + 1);
    let less = v.take(t);
    assert forall|c: nat| column_set(more).contains(c) <==> column_set(less).insert(
        column_index(v[t]),
    ).contains(c) by {
        if column_set(more).contains(c) {
            let i = choose|i: int| 0 <= i < more.len() && column_index(#[trigger] more[i]) == c;
            if i < t {
                assert(less[i] == more[i]);
            }
        }
        if column_set(less).contains(c) {
            let i = choose|i: int| 0 <= i < less.len() && column_index(#[trigger] less[i]) == c;
            assert(more[i] == less[i]);
        }
        if c == column_index(v[t]) {
            assert(more[t] == v[t]);
        }
    }
    assert(column_set(more) =~= column_set(less).insert(column_index(v[t])));
}

impl KernelConfig {
    /// Allocates new columns for a kernel of `height` by `width` entries.
    pub fn configure(sys: &mut System, height: usize, width: usize) -> (r: Self)
        ensures
            has_shape(r.columns@, height as nat, width as nat),
            grid_below(r.columns@, system_model(*final(sys)).advice),
            forall|i: int, j: int|
                0 <= i < height && 0 <= j < width ==> column_index(#[trigger] r.columns@[i]@[j])
                    == system_model(*old(sys)).advice + i * width + j,
            system_model(*final(sys)).advice == system_model(*old(sys)).advice + height * width,
            system_model(*final(sys)).selectors == system_model(*old(sys)).selectors,
            system_model(*final(sys)).gates == system_model(*old(sys)).gates,
            system_model(*final(sys)).equality == system_model(*old(sys)).equality,
    {
        KernelConfig { columns: alloc_grid(sys, height, width, false) }
    }
}

impl ImageConfig {
    /// Lays an image of `height` by `width` entries over the first
    /// `height * width` of the given columns of this constraint system, row
    /// after row, and enables equality on them.
    pub fn configure(sys: &mut System, advices: &Vec<AdviceColumn>, height: usize, width: usize) -> (r:
        Self)
        requires
            height * width <= advices.len(),
            columns_below(advices@, system_model(*old(sys)).advice),
        ensures
            has_shape(r.columns@, height as nat, width as nat),
            grid_below(r.columns@, system_model(*final(sys)).advice),
            forall|i: int, j: int|
                0 <= i < height && 0 <= j < width ==> #[trigger] r.columns@[i]@[j] == advices@[i
                    * width + j],
            system_model(*final(sys)).advice == system_model(*old(sys)).advice,
            system_model(*final(sys)).selectors == system_model(*old(sys)).selectors,
            system_model(*final(sys)).gates == system_model(*old(sys)).gates,
            system_model(*final(sys)).equality == system_model(*old(sys)).equality.union(
                column_set(advices@.take(height * width)),
            ),
    {
        let ghost start = system_model(*sys);
        let mut out: Vec<Vec<AdviceColumn>> = Vec::new();
        let mut t: usize = 0;
        let mut i: usize = 0;
        proof {
            assert(0 * width == 0);
            assert(start.equality.union(column_set(advices@.take(0))) =~= start.equality);
        }
        while i < height
            invariant
                i <= height,
                height * width <= advices.len(),
                columns_below(advices@, start.advice),
                grid_below(out@, start.advice),
                t == i * width,
                out.len() == i,
                forall|a: int| 0 <= a < i ==> (#[trigger] out@[a]).len() == width,
                forall|a: int, b: int|
                    0 <= a < i && 0 <= b < width ==> #[trigger] out@[a]@[b] == advices@[a * width
                        + b],
                system_model(*sys).advice == start.advice,
                system_model(*sys).selectors == start.selectors,
                system_model(*sys).gates == start.gates,
                system_model(*sys).equality == start.equality.union(
                    column_set(advices@.take(t as int)),
                ),
            decreases height - i,
        {
            let mut row: Vec<AdviceColumn> = Vec::new();
            let mut j: usize = 0;
            proof {
                assert((i + 1) * width <= height * width) by (nonlinear_arith)
                    requires
                        i < height,
                ;
                assert((i + 1) * width == i * width + width) by (nonlinear_arith);
            }
            while j < width
                invariant
                    j <= width,
                    i < height,
                    height * width <= advices.len(),
                    columns_below(advices@, start.advice),
                    columns_below(row@, start.advice),
                    i * width + width <= height * width,
                    t == i * width + j,
                    row.len() == j,
                    forall|b: int| 0 <= b < j ==> #[trigger] row@[b] == advices@[i * width + b],
                    system_model(*sys).advice == start.advice,
                    system_model(*sys).selectors == start.selectors,
                    system_model(*sys).gates == start.gates,
                    system_model(*sys).equality == start.equality.union(
                        column_set(advices@.take(t as int)),
                    ),
                decreases width - j,
            {
                let c = advices[t];
                let ghost before = system_model(*sys).equality;
                enable_equality(sys, c);
                proof {
                    lemma_column_set_step(advices@, t as int);
                    assert(before.insert(column_index(c)) =~= start.equality.union(
                        column_set(advices@.take(t + 1)),
                    ));
                }
                row.push(c);
                j = j + 1;
                t = t + 1;
            }
            out.push(row);
            i = i + 1;
        }
        ImageConfig { columns: out }
    }
}

impl<
    const KERNEL_HEIGHT: usize,
    const KERNEL_WIDTH: usize,
    const OUT_CHANNELS: usize,
    const STRIDE: usize,
    const IMAGE_HEIGHT: usize,
    const IMAGE_WIDTH: usize,
    const IN_CHANNELS: usize,
    const PADDING: usize,
> Config<
    KERNEL_HEIGHT,
    KERNEL_WIDTH,
    OUT_CHANNELS,
    STRIDE,
    IMAGE_HEIGHT,
    IMAGE_WIDTH,
    IN_CHANNELS,
    PADDING,
> {
    /// The layer's geometry.
    pub open spec fn shape() -> Geometry {
        Geometry {
            kernel_height: KERNEL_HEIGHT,
            kernel_width: KERNEL_WIDTH,
            image_height: IMAGE_HEIGHT,
            image_width: IMAGE_WIDTH,
            stride: STRIDE,
            padding: PADDING,
        }
    }

    /// Whether the layer's dimensions can be configured: the geometry is
    /// valid, and there is at least one input channel and no more than a
    /// rotation can name.
    pub open spec fn shape_valid() -> bool {
        Self::shape().valid() && 1 <= IN_CHANNELS <= 0x7fff_ffff
    }

    /// Whether each column of the layer is among the first `n` advice
    /// columns.
    pub open spec fn below(&self, n: nat) -> bool {
        &&& grid_below(self.kernel.columns@, n)
        &&& grid_below(self.image.columns@, n)
        &&& grid_below(self.output.columns@, n)
    }

    /// Whether the configuration has the layer's dimensions.
    pub open spec fn wf(&self) -> bool {
        &&& Self::shape_valid()
        &&& has_shape(self.kernel.columns@, KERNEL_HEIGHT as nat, KERNEL_WIDTH as nat)
        &&& has_shape(self.image.columns@, IMAGE_HEIGHT as nat, IMAGE_WIDTH as nat)
        &&& has_shape(
            self.output.columns@,
            Self::shape().out_height() as nat,
            Self::shape().out_width() as nat,
        )
    }

    /// The column indices of the layer's columns.
    pub open spec fn layout(&self) -> ConvLayout {
        ConvLayout {
            kernel: grid_columns(self.kernel.columns@),
            image: grid_columns(self.image.columns@),
            output: grid_columns(self.output.columns@),
        }
    }

    /// The layer's geometry.
    pub fn geometry() -> (g: Geometry)
        ensures
            g == Self::shape(),
    {
        Geometry {
            kernel_height: KERNEL_HEIGHT,
            kernel_width: KERNEL_WIDTH,
            image_height: IMAGE_HEIGHT,
            image_width: IMAGE_WIDTH,
            stride: STRIDE,
            padding: PADDING,
        }
    }

    /// Tells whether the configuration has the layer's dimensions.
    pub fn is_well_formed(&self) -> (ok: bool)
        ensures
            ok == self.wf(),
    {
        let g = Self::geometry();
        if !g.is_valid() || IN_CHANNELS < 1 || IN_CHANNELS > 0x7fff_ffff {
            return false;
        }
        check_shape(&self.kernel.columns, KERNEL_HEIGHT, KERNEL_WIDTH) && check_shape(
            &self.image.columns,
            IMAGE_HEIGHT,
            IMAGE_WIDTH,
        ) && check_shape(&self.output.columns, g.output_height(), g.output_width())
    }
}

/// `ConstraintSystem::create_gate`: registers one gate, named "convolution",
/// whose polynomials are the layer's constraints, built on the cells of this
/// constraint system, each multiplied by the selector. The backend panics on a
/// gate without constraints.
#[verifier::external_body]
fn create_conv_gate<
    const KERNEL_HEIGHT: usize,
    const KERNEL_WIDTH: usize,
    const OUT_CHANNELS: usize,
    const STRIDE: usize,
    const IMAGE_HEIGHT: usize,
    const IMAGE_WIDTH: usize,
    const IN_CHANNELS: usize,
    const PADDING: usize,
>(
    sys: &mut System,
    config: &Config<
        KERNEL_HEIGHT,
        KERNEL_WIDTH,
        OUT_CHANNELS,
        STRIDE,
        IMAGE_HEIGHT,
        IMAGE_WIDTH,
        IN_CHANNELS,
        PADDING,
    >,
)
    requires
        config.wf(),
        config.below(system_model(*old(sys)).advice),
    ensures
        system_model(*final(sys)) == (SystemModel {
            gates: system_model(*old(sys)).gates.push(
                guarded_all(selector_view(config.selector), config.polys()),
            ),
            ..system_model(*old(sys))
        }),
{
    sys.inner.create_gate("convolution", |cells| {
        let s = cells.query_selector(config.selector);
        Constraints::with_selector(s, config.constraints(&mut GateCells { inner: cells }))
    });
}

impl<
    const KERNEL_HEIGHT: usize,
    const KERNEL_WIDTH: usize,
    const OUT_CHANNELS: usize,
    const STRIDE: usize,
    const IMAGE_HEIGHT: usize,
    const IMAGE_WIDTH: usize,
    const IN_CHANNELS: usize,
    const PADDING: usize,
> Config<
    KERNEL_HEIGHT,
    KERNEL_WIDTH,
    OUT_CHANNELS,
    STRIDE,
    IMAGE_HEIGHT,
    IMAGE_WIDTH,
    IN_CHANNELS,
    PADDING,
> {
    /// The constraints of the layer's gate.
    pub open spec fn polys(&self) -> Seq<Poly> {
        conv_polys(self.layout(), Self::shape(), IN_CHANNELS as nat)
    }

    /// Builds the constraints of the layer's gate: for each output position
    /// the negated output cell, read on the row after the last channel, plus
    /// the sum over the channels of the correlation of the channel's kernel
    /// and image cells.
    pub fn constraints(&self, cells: &mut GateCells<'_, '_>) -> (r: Vec<Expression<Fp>>)
        requires
            self.wf(),
            self.below(cells_advice(*old(cells))),
        ensures
            exprs_view(r@) == self.polys(),
            r.len() >= 1,
            forall|i: int| 0 <= i < r.len() ==> !has_simple_selector(expr_poly(#[trigger] r@[i])),
    {
        let g = Self::geometry();
        let height = g.output_height();
        let width = g.output_width();
        let ghost l = self.layout();
        let k0 = query_grid(cells, &self.kernel.columns, 0);
        let i0 = query_grid(cells, &self.image.columns, 0);
        proof {
            reveal_with_fuel(has_simple_selector, 2);
            assert(grid_polys(k0@) =~~= cell_polys(l.kernel, 0));
            assert(grid_polys(i0@) =~~= cell_polys(l.image, 0));
        }
        let mut expected = convolution_exprs(&g, &k0, &i0);
        let mut ch: usize = 1;
        while ch < IN_CHANNELS
            invariant
                1 <= ch <= IN_CHANNELS,
                self.wf(),
                self.below(cells_advice(*cells)),
                g == Self::shape(),
                l == self.layout(),
                has_shape(expected@, g.out_height() as nat, g.out_width() as nat),
                grid_plain(grid_polys(expected@)),
                forall|oh: int, ow: int|
                    0 <= oh < g.out_height() && 0 <= ow < g.out_width() ==> expr_poly(
                        #[trigger] expected@[oh]@[ow],
                    ) == channel_poly(l, g, oh, ow, ch as nat),
            decreases IN_CHANNELS - ch,
        {
            let k = query_grid(cells, &self.kernel.columns, ch as i32);
            let im = query_grid(cells, &self.image.columns, ch as i32);
            proof {
                reveal_with_fuel(has_simple_selector, 2);
                assert(grid_polys(k@) =~~= cell_polys(l.kernel, ch as int));
                assert(grid_polys(im@) =~~= cell_polys(l.image, ch as int));
            }
            let c = convolution_exprs(&g, &k, &im);
            expected = add_expr_grids(&expected, &c);
            ch = ch + 1;
        }
        let witnessed = query_grid(cells, &self.output.columns, IN_CHANNELS as i32);
        let mut out: Vec<Expression<Fp>> = Vec::new();
        let mut oh: usize = 0;
        proof {
            assert(0 * width == 0);
        }
        while oh < height
            invariant
                oh <= height,
                height == g.out_height(),
                width == g.out_width(),
                width >= 1,
                self.wf(),
                g == Self::shape(),
                l == self.layout(),
                has_shape(expected@, g.out_height() as nat, g.out_width() as nat),
                grid_plain(grid_polys(expected@)),
                forall|a: int, b: int|
                    0 <= a < g.out_height() && 0 <= b < g.out_width() ==> expr_poly(
                        #[trigger] expected@[a]@[b],
                    ) == channel_poly(l, g, a, b, IN_CHANNELS as nat),
                has_shape(witnessed@, g.out_height() as nat, g.out_width() as nat),
                forall|a: int, b: int|
                    0 <= a < g.out_height() && 0 <= b < g.out_width() ==> expr_poly(
                        #[trigger] witnessed@[a]@[b],
                    ) == advice(l.output[a][b], IN_CHANNELS as int),
                out.len() == oh * width,
                forall|t: int|
                    0 <= t < out.len() ==> expr_poly(#[trigger] out@[t]) == conv_constraint(
                        l,
                        g,
                        IN_CHANNELS as nat,
                        t / (width as int),
                        t % (width as int),
                    ),
                forall|t: int| 0 <= t < out.len() ==> !has_simple_selector(expr_poly(#[trigger] out@[t])),
            decreases height - oh,
        {
            let mut ow: usize = 0;
            while ow < width
                invariant
                    ow <= width,
                    oh < height,
                    height == g.out_height(),
                    width == g.out_width(),
                    l == self.layout(),
                    has_shape(expected@, g.out_height() as nat, g.out_width() as nat),
                    grid_plain(grid_polys(expected@)),
                    forall|a: int, b: int|
                        0 <= a < g.out_height() && 0 <= b < g.out_width() ==> expr_poly(
                            #[trigger] expected@[a]@[b],
                        ) == channel_poly(l, g, a, b, IN_CHANNELS as nat),
                    has_shape(witnessed@, g.out_height() as nat, g.out_width() as nat),
                    forall|a: int, b: int|
                        0 <= a < g.out_height() && 0 <= b < g.out_width() ==> expr_poly(
                            #[trigger] witnessed@[a]@[b],
                        ) == advice(l.output[a][b], IN_CHANNELS as int),
                    out.len() == oh * width + ow,
                    forall|t: int|
                        0 <= t < out.len() ==> expr_poly(#[trigger] out@[t]) == conv_constraint(
                            l,
                            g,
                            IN_CHANNELS as nat,
                            t / (width as int),
                            t % (width as int),
                        ),
                    forall|t: int|
                        0 <= t < out.len() ==> !has_simple_selector(expr_poly(#[trigger] out@[t])),
                decreases width - ow,
            {
                proof {
                    reveal_with_fuel(has_simple_selector, 2);
                    assert(!has_simple_selector(grid_polys(expected@)[oh as int][ow as int]));
                }
                let w = witnessed[oh][ow].duplicate().negated();
                let e = expected[oh][ow].duplicate();
                proof {
                    reveal_with_fuel(has_simple_selector, 3);
                    assert(expr_poly(e) == grid_polys(expected@)[oh as int][ow as int]);
                    lemma_fundamental_div_mod_converse(
                        oh * width + ow,
                        width as int,
                        oh as int,
                        ow as int,
                    );
                }
                let c = w.sum(e);
                out.push(c);
                ow = ow + 1;
            }
            proof {
                assert(oh * width + width == (oh + 1) * width) by (nonlinear_arith);
            }
            oh = oh + 1;
        }
        proof {
            assert(height * width >= 1) by (nonlinear_arith)
                requires
                    height >= 1,
                    width >= 1,
            ;
            assert(exprs_view(out@) =~= self.polys());
        }
        out
    }

    /// Configures the layer: takes a new selector, allocates the columns of
    /// the kernel, lays the image and the output over the given columns of
    /// this constraint system, from the first on, and registers the layer's
    /// gate once for each output channel, all under the one selector.
    ///
    /// Fails with `Shape`, and leaves the constraint system as it was, where
    /// the output would have no row or no column, a size does not fit the
    /// machine, there is no input channel, or the columns given are fewer
    /// than the image or the output has entries.
    pub fn configure(sys: &mut System, advices: Vec<AdviceColumn>) -> (r: Result<Self, LayerError>)
        requires
            columns_below(advices@, system_model(*old(sys)).advice),
        ensures
            match r {
                Ok(config) => {
                    &&& Self::fits(advices.len())
                    &&& config.wf()
                    &&& selector_view(config.selector) == (system_model(*old(sys)).selectors, true)
                    &&& forall|i: int, j: int|
                        0 <= i < KERNEL_HEIGHT && 0 <= j < KERNEL_WIDTH ==> column_index(
                            #[trigger] config.kernel.columns@[i]@[j],
                        ) == system_model(*old(sys)).advice + i * KERNEL_WIDTH + j
                    &&& forall|i: int, j: int|
                        0 <= i < IMAGE_HEIGHT && 0 <= j < IMAGE_WIDTH
                            ==> #[trigger] config.image.columns@[i]@[j] == advices@[i * IMAGE_WIDTH
                            + j]
                    &&& forall|i: int, j: int|
                        0 <= i < Self::shape().out_height() && 0 <= j < Self::shape().out_width()
                            ==> #[trigger] config.output.columns@[i]@[j] == advices@[i
                            * Self::shape().out_width() + j]
                    &&& system_model(*final(sys)).advice == system_model(*old(sys)).advice
                        + KERNEL_HEIGHT * KERNEL_WIDTH
                    &&& system_model(*final(sys)).selectors == system_model(*old(sys)).selectors + 1
                    &&& system_model(*final(sys)).equality == system_model(
                        *old(sys),
                    ).equality.union(column_set(advices@.take(IMAGE_HEIGHT * IMAGE_WIDTH))).union(
                        column_set(
                            advices@.take(
                                Self::shape().out_height() * Self::shape().out_width(),
                            ),
                        ),
                    )
                    &&& system_model(*final(sys)).gates == system_model(*old(sys)).gates
                        + repeated(
                        guarded_all(selector_view(config.selector), config.polys()),
                        OUT_CHANNELS as nat,
                    )
                },
                Err(e) => e is Shape && !Self::fits(advices.len()) && *final(sys) == *old(sys),
            },
    {
        let g = Self::geometry();
        if !g.is_valid() || IN_CHANNELS < 1 || IN_CHANNELS > 0x7fff_ffff {
            return Err(LayerError::Shape);
        }
        let height = g.output_height();
        let width = g.output_width();
        match IMAGE_HEIGHT.checked_mul(IMAGE_WIDTH) {
            Some(n) => {
                if n > advices.len() {
                    return Err(LayerError::Shape);
                }
            },
            None => {
                return Err(LayerError::Shape);
            },
        }
        match height.checked_mul(width) {
            Some(n) => {
                if n > advices.len() {
                    return Err(LayerError::Shape);
                }
            },
            None => {
                return Err(LayerError::Shape);
            },
        }
        let selector = new_selector(sys);
        let kernel = KernelConfig::configure(sys, KERNEL_HEIGHT, KERNEL_WIDTH);
        let image = ImageConfig::configure(sys, &advices, IMAGE_HEIGHT, IMAGE_WIDTH);
        let output = ImageConfig::configure(sys, &advices, height, width);
        let config = Config { selector, kernel, image, output };
        let ghost before = system_model(*sys);
        let ghost gate = guarded_all(selector_view(config.selector), config.polys());
        let mut f: usize = 0;
        assert(before.gates + repeated(gate, 0) =~= before.gates);
        while f < OUT_CHANNELS
            invariant
                f <= OUT_CHANNELS,
                config.wf(),
                config.below(system_model(*sys).advice),
                gate == guarded_all(selector_view(config.selector), config.polys()),
                system_model(*sys) == (SystemModel {
                    gates: before.gates + repeated(gate, f as nat),
                    ..before
                }),
            decreases OUT_CHANNELS - f,
        {
            create_conv_gate(sys, &config);
            assert((before.gates + repeated(gate, f as nat)).push(gate) =~= before.gates
                + repeated(gate, (f + 1) as nat));
            f = f + 1;
        }
        Ok(config)
    }

    /// Whether a layer of these dimensions can be configured on `columns`
    /// columns: its dimensions are valid, and the image and the output have
    /// no more entries than there are columns.
    pub open spec fn fits(columns: usize) -> bool {
        &&& Self::shape_valid()
        &&& IMAGE_HEIGHT * IMAGE_WIDTH <= columns
        &&& Self::shape().out_height() * Self::shape().out_width() <= columns
    }
}

} // verus!
