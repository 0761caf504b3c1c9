//! What holds of the convolution layer: its gate accepts exactly the witness
//! of the forward pass, and the forward pass on encoded integers is the
//! encoded integer correlation.

use vstd::prelude::*;
use vstd::arithmetic::div_mod::{
    lemma_add_mod_noop, lemma_fundamental_div_mod, lemma_fundamental_div_mod_converse,
    lemma_mod_bound, lemma_mul_mod_noop, lemma_small_mod,
};
use crate::affine_laws::{lemma_neg_cancels, reduced};
use crate::backend::{
    column_index, region_log, selector_view, AdviceColumn, LayoutRegion, Request,
};
use crate::cells::grid_assigns;
use crate::conv::{channel_sum, conv_acc, Geometry};
use crate::conv_assign::{channel_requests, sum_grid};
use crate::conv_config::{
    cell_polys, channel_poly, conv_constraint, conv_poly_acc, Config, ConvLayout,
};
use crate::encoder::{encode_value, encoded_ints};
use crate::field::modulus;
use crate::gate::{eval, guarded_all, lemma_eval_bound, lemma_guarded, Poly, Row};
use crate::witness::{agrees, holds, lemma_agrees_concat, lemma_agrees_grid, lemma_grid_held};

verus! {

/// Whether `m` has `rows` rows of `cols` entries each.
pub open spec fn shaped<T>(m: Seq<Seq<T>>, rows: int, cols: int) -> bool {
    m.len() == rows && forall|i: int| 0 <= i < rows ==> (#[trigger] m[i]).len() == cols
}

/// Whether kernel and image have the dimensions that the geometry names.
pub open spec fn fit<T>(kernel: Seq<Seq<T>>, image: Seq<Seq<T>>, g: Geometry) -> bool {
    shaped(kernel, g.kernel_height as int, g.kernel_width as int) && shaped(
        image,
        g.image_height as int,
        g.image_width as int,
    )
}

/// Whether `(kh, kw)` is a position up to which the taps of a kernel are
/// summed: an entry of the kernel, the end of a row, or the end of the kernel.
pub open spec fn position(g: Geometry, kh: nat, kw: nat) -> bool {
    kh < g.kernel_height && kw <= g.kernel_width || kh == g.kernel_height && kw == 0
}

/// The value of each polynomial of a grid on a row, as known witness values.
pub open spec fn eval_grid(m: Seq<Seq<Poly>>, row: Row) -> Seq<Seq<Option<nat>>> {
    Seq::new(m.len(), |i: int| Seq::new(m[i].len(), |j: int| Some(eval(m[i][j], row))))
}

/// What the cells of a grid of columns hold at `rotation` from the row, as
/// known witness values.
pub open spec fn rotated_values(cols: Seq<Seq<nat>>, row: Row, rotation: int) -> Seq<
    Seq<Option<nat>>,
> {
    Seq::new(
        cols.len(),
        |i: int|
            Seq::new(cols[i].len(), |j: int| Some((row.advice)(cols[i][j], rotation) % modulus())),
    )
}

/// What the cells of a grid of columns hold on each of `n` rows from the row
/// on: channel `c` on row `c`.
pub open spec fn channel_values(cols: Seq<Seq<nat>>, row: Row, n: nat) -> Seq<
    Seq<Seq<Option<nat>>>,
> {
    Seq::new(n, |c: int| rotated_values(cols, row, c))
}

/// The value of a correlation of polynomials is the correlation of their
/// values.
pub proof fn lemma_conv_poly_eval(
    kernel: Seq<Seq<Poly>>,
    image: Seq<Seq<Poly>>,
    g: Geometry,
    row: Row,
    oh: int,
    ow: int,
    kh: nat,
    kw: nat,
)
    requires
        fit(kernel, image, g),
        position(g, kh, kw),
    ensures
        conv_acc(eval_grid(kernel, row), eval_grid(image, row), g, oh, ow, kh, kw) == Some(
            eval(conv_poly_acc(kernel, image, g, oh, ow, kh, kw), row),
        ),
    decreases kh, kw,
{
    reveal_with_fuel(eval, 3);
    if kw == 0 {
        if kh == 0 {
            lemma_small_mod(0, modulus());
        } else {
            lemma_conv_poly_eval(
                kernel,
                image,
                g,
                row,
                oh,
                ow,
                (kh - 1) as nat,
                g.kernel_width as nat,
            );
        }
    } else {
        lemma_conv_poly_eval(kernel, image, g, row, oh, ow, kh, (kw - 1) as nat);
        if g.inside(oh, ow, kh as int, kw - 1) {
            let r = g.tap(oh, kh as int);
            let c = g.tap(ow, kw - 1);
            assert(eval_grid(kernel, row)[kh as int][kw - 1] == Some(
                eval(kernel[kh as int][kw - 1], row),
            ));
            assert(eval_grid(image, row)[r][c] == Some(eval(image[r][c], row)));
        }
    }
}

/// The value of the sum over the channels is the sum over the channels of the
/// correlation of what the kernel and image cells hold, channel `c` read at
/// rotation `c`.
pub proof fn lemma_channel_poly_eval(
    l: ConvLayout,
    g: Geometry,
    row: Row,
    channels: nat,
    oh: int,
    ow: int,
    n: nat,
)
    requires
        fit(l.kernel, l.image, g),
        n <= channels,
    ensures
        channel_sum(
            channel_values(l.kernel, row, channels),
            channel_values(l.image, row, channels),
            g,
            oh,
            ow,
            n,
        ) == Some(eval(channel_poly(l, g, oh, ow, n), row)),
    decreases n,
{
    reveal_with_fuel(eval, 2);
    if n == 0 {
        lemma_small_mod(0, modulus());
    } else {
        let c = (n - 1) as int;
        let kp = cell_polys(l.kernel, c);
        let ip = cell_polys(l.image, c);
        assert(fit(kp, ip, g));
        lemma_conv_poly_eval(kp, ip, g, row, oh, ow, g.kernel_height as nat, 0);
        assert(eval_grid(kp, row) =~~= rotated_values(l.kernel, row, c));
        assert(eval_grid(ip, row) =~~= rotated_values(l.image, row, c));
        assert(channel_values(l.kernel, row, channels)[c] == rotated_values(l.kernel, row, c));
        assert(channel_values(l.image, row, channels)[c] == rotated_values(l.image, row, c));
        if n > 1 {
            lemma_channel_poly_eval(l, g, row, channels, oh, ow, (n - 1) as nat);
        }
    }
}

/// The constraint on output `(oh, ow)` evaluates to zero on a row exactly
/// when the output cell, on the row after the last channel, holds the sum over
/// the channels of the correlation of what the kernel and image cells hold.
pub proof fn lemma_conv_gate(l: ConvLayout, g: Geometry, row: Row, channels: nat, oh: int, ow: int)
    requires
        fit(l.kernel, l.image, g),
    ensures
        eval(conv_constraint(l, g, channels, oh, ow), row) == 0 <==> Some(
            (row.advice)(l.output[oh][ow], channels as int) % modulus(),
        ) == channel_sum(
            channel_values(l.kernel, row, channels),
            channel_values(l.image, row, channels),
            g,
            oh,
            ow,
            channels,
        ),
{
    reveal_with_fuel(eval, 3);
    let o = (row.advice)(l.output[oh][ow], channels as int) % modulus();
    let e = eval(channel_poly(l, g, oh, ow, channels), row);
    lemma_channel_poly_eval(l, g, row, channels, oh, ow, channels);
    lemma_eval_bound(channel_poly(l, g, oh, ow, channels), row);
    lemma_small_mod(o, modulus());
    lemma_neg_cancels(o, e);
}

/// A row on which the constraint on output `(oh, ow)` holds no longer
/// satisfies it once the output cell holds another value, the kernel and image
/// cells holding what they held.
pub proof fn lemma_conv_gate_rejects(
    l: ConvLayout,
    g: Geometry,
    row: Row,
    changed: Row,
    channels: nat,
    oh: int,
    ow: int,
)
    requires
        fit(l.kernel, l.image, g),
        eval(conv_constraint(l, g, channels, oh, ow), row) == 0,
        (changed.advice)(l.output[oh][ow], channels as int) % modulus() != (row.advice)(
            l.output[oh][ow],
            channels as int,
        ) % modulus(),
        channel_values(l.kernel, changed, channels) == channel_values(l.kernel, row, channels),
        channel_values(l.image, changed, channels) == channel_values(l.image, row, channels),
    ensures
        eval(conv_constraint(l, g, channels, oh, ow), changed) != 0,
{
    lemma_conv_gate(l, g, row, channels, oh, ow);
    lemma_conv_gate(l, g, changed, channels, oh, ow);
}

/// The integer sum of the products of kernel entry and image entry over the
/// taps that meet the image, up to, not including, kernel entry `(kh, kw)`.
pub open spec fn conv_int_acc(
    kernel: Seq<Seq<int>>,
    image: Seq<Seq<int>>,
    g: Geometry,
    oh: int,
    ow: int,
    kh: nat,
    kw: nat,
) -> int
    decreases kh, kw,
{
    if kw == 0 {
        if kh == 0 {
            0
        } else {
            conv_int_acc(kernel, image, g, oh, ow, (kh - 1) as nat, g.kernel_width as nat)
        }
    } else {
        let before = conv_int_acc(kernel, image, g, oh, ow, kh, (kw - 1) as nat);
        if g.inside(oh, ow, kh as int, kw - 1) {
            before + kernel[kh as int][kw - 1] * image[g.tap(oh, kh as int)][g.tap(ow, kw - 1)]
        } else {
            before
        }
    }
}

/// The integer correlation at output position `(oh, ow)`.
pub open spec fn conv_int_at(
    kernel: Seq<Seq<int>>,
    image: Seq<Seq<int>>,
    g: Geometry,
    oh: int,
    ow: int,
) -> int {
    conv_int_acc(kernel, image, g, oh, ow, g.kernel_height as nat, 0)
}

/// The integer sum over the first `n` channels of the correlation.
pub open spec fn channel_int_sum(
    kernels: Seq<Seq<Seq<int>>>,
    images: Seq<Seq<Seq<int>>>,
    g: Geometry,
    oh: int,
    ow: int,
    n: nat,
) -> int
    decreases n,
{
    if n == 0 {
        0
    } else {
        channel_int_sum(kernels, images, g, oh, ow, (n - 1) as nat) + conv_int_at(
            kernels[n - 1],
            images[n - 1],
            g,
            oh,
            ow,
        )
    }
}

/// The known witness values that encode the integers of a grid.
pub open spec fn encoded_int_grid(m: Seq<Seq<int>>) -> Seq<Seq<Option<nat>>> {
    Seq::new(m.len(), |i: int| encoded_ints(m[i]))
}

/// The known witness values that encode the integers of a vector of grids.
pub open spec fn encoded_int_stack(s: Seq<Seq<Seq<int>>>) -> Seq<Seq<Seq<Option<nat>>>> {
    Seq::new(s.len(), |c: int| encoded_int_grid(s[c]))
}

/// The correlation of encoded integers is the encoded integer correlation.
pub proof fn lemma_conv_encodes(
    kernel: Seq<Seq<int>>,
    image: Seq<Seq<int>>,
    g: Geometry,
    oh: int,
    ow: int,
    kh: nat,
    kw: nat,
)
    requires
        fit(kernel, image, g),
        position(g, kh, kw),
    ensures
        conv_acc(encoded_int_grid(kernel), encoded_int_grid(image), g, oh, ow, kh, kw) == Some(
            encode_value(conv_int_acc(kernel, image, g, oh, ow, kh, kw)),
        ),
    decreases kh, kw,
{
    let p = modulus() as int;
    if kw == 0 {
        if kh == 0 {
            lemma_small_mod(0, modulus());
        } else {
            lemma_conv_encodes(kernel, image, g, oh, ow, (kh - 1) as nat, g.kernel_width as nat);
        }
    } else {
        lemma_conv_encodes(kernel, image, g, oh, ow, kh, (kw - 1) as nat);
        if g.inside(oh, ow, kh as int, kw - 1) {
            let r = g.tap(oh, kh as int);
            let c = g.tap(ow, kw - 1);
            let a = kernel[kh as int][kw - 1];
            let b = image[r][c];
            let s = conv_int_acc(kernel, image, g, oh, ow, kh, (kw - 1) as nat);
            assert(encoded_int_grid(kernel)[kh as int][kw - 1] == Some(encode_value(a)));
            assert(encoded_int_grid(image)[r][c] == Some(encode_value(b)));
            lemma_mul_mod_noop(a, b, p);
            lemma_add_mod_noop(s, a * b, p);
            lemma_small_mod(((a * b) % p) as nat, modulus());
        }
    }
}

/// The sum over the channels of the correlation of encoded integers is the
/// encoding of the integer sum over the channels, where there is a channel.
pub proof fn lemma_channel_encodes(
    kernels: Seq<Seq<Seq<int>>>,
    images: Seq<Seq<Seq<int>>>,
    g: Geometry,
    oh: int,
    ow: int,
    n: nat,
)
    requires
        n <= kernels.len(),
        n <= images.len(),
        forall|c: int| 0 <= c < n ==> fit(#[trigger] kernels[c], images[c], g),
    ensures
        channel_sum(encoded_int_stack(kernels), encoded_int_stack(images), g, oh, ow, n) == Some(
            encode_value(channel_int_sum(kernels, images, g, oh, ow, n)),
        ),
    decreases n,
{
    let p = modulus() as int;
    reveal_with_fuel(channel_int_sum, 2);
    if n == 0 {
        lemma_small_mod(0, modulus());
    } else {
        let c = (n - 1) as int;
        assert(fit(kernels[c], images[c], g));
        lemma_conv_encodes(kernels[c], images[c], g, oh, ow, g.kernel_height as nat, 0);
        assert(encoded_int_stack(kernels)[c] == encoded_int_grid(kernels[c]));
        assert(encoded_int_stack(images)[c] == encoded_int_grid(images[c]));
        if n > 1 {
            lemma_channel_encodes(kernels, images, g, oh, ow, (n - 1) as nat);
            lemma_add_mod_noop(
                channel_int_sum(kernels, images, g, oh, ow, (n - 1) as nat),
                conv_int_at(kernels[c], images[c], g, oh, ow),
                p,
            );
        }
    }
}

/// Whether every value of the grid is known.
pub open spec fn grid_known(m: Seq<Seq<Option<nat>>>) -> bool {
    forall|i: int, j: int| 0 <= i < m.len() && 0 <= j < m[i].len() ==> (#[trigger] m[i][j]) is Some
}

/// The residues of the values of a grid.
pub open spec fn reduced_grid(m: Seq<Seq<Option<nat>>>) -> Seq<Seq<Option<nat>>> {
    Seq::new(m.len(), |i: int| reduced(m[i]))
}

/// The residues of the values of a vector of grids.
pub open spec fn reduced_stack(s: Seq<Seq<Seq<Option<nat>>>>) -> Seq<Seq<Seq<Option<nat>>>> {
    Seq::new(s.len(), |c: int| reduced_grid(s[c]))
}

/// A correlation does not change when kernel and image entries are replaced
/// by their residues.
pub proof fn lemma_conv_reduced(
    kernel: Seq<Seq<Option<nat>>>,
    image: Seq<Seq<Option<nat>>>,
    g: Geometry,
    oh: int,
    ow: int,
    kh: nat,
    kw: nat,
)
    requires
        fit(kernel, image, g),
        position(g, kh, kw),
    ensures
        conv_acc(reduced_grid(kernel), reduced_grid(image), g, oh, ow, kh, kw) == conv_acc(
            kernel,
            image,
            g,
            oh,
            ow,
            kh,
            kw,
        ),
    decreases kh, kw,
{
    if kw == 0 {
        if kh > 0 {
            lemma_conv_reduced(kernel, image, g, oh, ow, (kh - 1) as nat, g.kernel_width as nat);
        }
    } else {
        lemma_conv_reduced(kernel, image, g, oh, ow, kh, (kw - 1) as nat);
        if g.inside(oh, ow, kh as int, kw - 1) {
            let r = g.tap(oh, kh as int);
            let c = g.tap(ow, kw - 1);
            let a = kernel[kh as int][kw - 1];
            let b = image[r][c];
            assert(reduced_grid(kernel)[kh as int][kw - 1] == reduced(kernel[kh as int])[kw - 1]);
            assert(reduced_grid(image)[r][c] == reduced(image[r])[c]);
            if a is Some && b is Some {
                lemma_mul_mod_noop(a->0 as int, b->0 as int, modulus() as int);
            }
        }
    }
}

/// A correlation of known values is known, and a residue.
pub proof fn lemma_conv_known(
    kernel: Seq<Seq<Option<nat>>>,
    image: Seq<Seq<Option<nat>>>,
    g: Geometry,
    oh: int,
    ow: int,
    kh: nat,
    kw: nat,
)
    requires
        fit(kernel, image, g),
        grid_known(kernel),
        grid_known(image),
        position(g, kh, kw),
    ensures
        conv_acc(kernel, image, g, oh, ow, kh, kw) is Some,
        conv_acc(kernel, image, g, oh, ow, kh, kw)->0 < modulus(),
    decreases kh, kw,
{
    if kw == 0 {
        if kh > 0 {
            lemma_conv_known(kernel, image, g, oh, ow, (kh - 1) as nat, g.kernel_width as nat);
        }
    } else {
        lemma_conv_known(kernel, image, g, oh, ow, kh, (kw - 1) as nat);
        if g.inside(oh, ow, kh as int, kw - 1) {
            assert(kernel[kh as int][kw - 1] is Some);
            assert(image[g.tap(oh, kh as int)][g.tap(ow, kw - 1)] is Some);
        }
    }
}

/// A sum over the channels of correlations of known values is known, a
/// residue, and unchanged when kernel and image entries are replaced by their
/// residues.
pub proof fn lemma_channel_known(
    kernels: Seq<Seq<Seq<Option<nat>>>>,
    images: Seq<Seq<Seq<Option<nat>>>>,
    g: Geometry,
    oh: int,
    ow: int,
    n: nat,
)
    requires
        n <= kernels.len(),
        n <= images.len(),
        forall|c: int|
            0 <= c < n ==> fit(#[trigger] kernels[c], images[c], g) && grid_known(kernels[c])
                && grid_known(images[c]),
    ensures
        channel_sum(kernels, images, g, oh, ow, n) is Some,
        channel_sum(kernels, images, g, oh, ow, n)->0 < modulus(),
        channel_sum(reduced_stack(kernels), reduced_stack(images), g, oh, ow, n) == channel_sum(
            kernels,
            images,
            g,
            oh,
            ow,
            n,
        ),
    decreases n,
{
    if n > 0 {
        let c = (n - 1) as int;
        assert(fit(kernels[c], images[c], g));
        lemma_conv_known(kernels[c], images[c], g, oh, ow, g.kernel_height as nat, 0);
        lemma_conv_reduced(kernels[c], images[c], g, oh, ow, g.kernel_height as nat, 0);
        assert(reduced_stack(kernels)[c] == reduced_grid(kernels[c]));
        assert(reduced_stack(images)[c] == reduced_grid(images[c]));
        if n > 1 {
            lemma_channel_known(kernels, images, g, oh, ow, (n - 1) as nat);
        }
    }
}

/// A table, read from row `base`, that holds what placing the first `n`
/// channels from that row on asks for holds each known image and kernel entry
/// of channel `c` in the cell of its column on row `c`.
pub proof fn lemma_agrees_channels(
    row: Row,
    image_columns: Seq<Vec<AdviceColumn>>,
    kernel_columns: Seq<Vec<AdviceColumn>>,
    base: nat,
    images: Seq<Seq<Seq<Option<nat>>>>,
    kernels: Seq<Seq<Seq<Option<nat>>>>,
    n: nat,
    c: int,
)
    requires
        agrees(
            row,
            channel_requests(image_columns, kernel_columns, base, images, kernels, n),
            base,
        ),
        0 <= c < n,
    ensures
        agrees(
            row,
            grid_assigns(image_columns, (base + c) as nat, images[c], image_columns.len()),
            base,
        ),
        agrees(
            row,
            grid_assigns(kernel_columns, (base + c) as nat, kernels[c], kernel_columns.len()),
            base,
        ),
    decreases n,
{
    let before = channel_requests(
        image_columns,
        kernel_columns,
        base,
        images,
        kernels,
        (n - 1) as nat,
    );
    let first = grid_assigns(
        image_columns,
        (base + n - 1) as nat,
        images[n - 1],
        image_columns.len(),
    );
    let second = grid_assigns(
        kernel_columns,
        (base + n - 1) as nat,
        kernels[n - 1],
        kernel_columns.len(),
    );
    lemma_agrees_concat(row, before + first, second, base);
    lemma_agrees_concat(row, before, first, base);
    if c < n - 1 {
        lemma_agrees_channels(
            row,
            image_columns,
            kernel_columns,
            base,
            images,
            kernels,
            (n - 1) as nat,
            c,
        );
    }
}

/// The requests of a filter describe a witness that the layer's gate accepts:
/// on rows that hold, read from row `base`, what placing the filter from
/// that row on asks for, with known images
/// and kernels of the layer's dimensions, the layer's selector is set and the
/// constraint on every output position evaluates to zero.
pub proof fn lemma_filter_witness<
    const KERNEL_HEIGHT: usize,
    const KERNEL_WIDTH: usize,
    const OUT_CHANNELS: usize,
    const STRIDE: usize,
    const IMAGE_HEIGHT: usize,
    const IMAGE_WIDTH: usize,
    const IN_CHANNELS: usize,
    const PADDING: usize,
>(
    config: Config<
        KERNEL_HEIGHT,
        KERNEL_WIDTH,
        OUT_CHANNELS,
        STRIDE,
        IMAGE_HEIGHT,
        IMAGE_WIDTH,
        IN_CHANNELS,
        PADDING,
    >,
    base: nat,
    images: Seq<Seq<Seq<Option<nat>>>>,
    kernels: Seq<Seq<Seq<Option<nat>>>>,
    g: Geometry,
    row: Row,
)
    requires
        config.wf(),
        g == Config::<
            KERNEL_HEIGHT,
            KERNEL_WIDTH,
            OUT_CHANNELS,
            STRIDE,
            IMAGE_HEIGHT,
            IMAGE_WIDTH,
            IN_CHANNELS,
            PADDING,
        >::shape(),
        images.len() == IN_CHANNELS,
        kernels.len() == IN_CHANNELS,
        forall|c: int|
            0 <= c < IN_CHANNELS ==> fit(#[trigger] kernels[c], images[c], g) && grid_known(
                kernels[c],
            ) && grid_known(images[c]),
        agrees(row, config.filter_requests(base, images, kernels), base),
    ensures
        (row.selector)(selector_view(config.selector).0),
        forall|oh: int, ow: int|
            0 <= oh < g.out_height() && 0 <= ow < g.out_width() ==> eval(
                #[trigger] conv_constraint(config.layout(), g, IN_CHANNELS as nat, oh, ow),
                row,
            ) == 0,
        forall|t: int|
            0 <= t < config.polys().len() ==> eval(
                #[trigger] guarded_all(selector_view(config.selector), config.polys())[t],
                row,
            ) == 0,
{
    let l = config.layout();
    let n = IN_CHANNELS as nat;
    let enable = seq![Request::Enable { selector: selector_view(config.selector).0, offset: base }];
    let placed = channel_requests(
        config.image.columns@,
        config.kernel.columns@,
        base,
        images,
        kernels,
        n,
    );
    let sums = sum_grid(kernels, images, g, n);
    let written = grid_assigns(config.output.columns@, base + n, sums, config.output.columns@.len());
    lemma_agrees_concat(row, enable + placed, written, base);
    lemma_agrees_concat(row, enable, placed, base);
    assert(holds(row, enable[0], base));
    assert(fit(l.kernel, l.image, g));
    assert forall|c: int| 0 <= c < n implies #[trigger] channel_values(l.kernel, row, n)[c]
        == reduced_stack(kernels)[c] && channel_values(l.image, row, n)[c] == reduced_stack(
        images,
    )[c] by {
        lemma_agrees_channels(
            row,
            config.image.columns@,
            config.kernel.columns@,
            base,
            images,
            kernels,
            n,
            c,
        );
        assert(fit(kernels[c], images[c], g));
        assert forall|i: int, j: int|
            0 <= i < KERNEL_HEIGHT && 0 <= j < KERNEL_WIDTH implies #[trigger] rotated_values(
            l.kernel,
            row,
            c,
        )[i][j] == reduced_grid(kernels[c])[i][j] by {
            assert(kernels[c][i][j] is Some);
            lemma_agrees_grid(
                row,
                config.kernel.columns@,
                (base + c) as nat,
                kernels[c],
                config.kernel.columns@.len(),
                base,
                i,
                j,
            );
            assert(reduced_grid(kernels[c])[i][j] == reduced(kernels[c][i])[j]);
        }
        assert forall|i: int, j: int|
            0 <= i < IMAGE_HEIGHT && 0 <= j < IMAGE_WIDTH implies #[trigger] rotated_values(
            l.image,
            row,
            c,
        )[i][j] == reduced_grid(images[c])[i][j] by {
            assert(images[c][i][j] is Some);
            lemma_agrees_grid(
                row,
                config.image.columns@,
                (base + c) as nat,
                images[c],
                config.image.columns@.len(),
                base,
                i,
                j,
            );
            assert(reduced_grid(images[c])[i][j] == reduced(images[c][i])[j]);
        }
        assert(rotated_values(l.kernel, row, c) =~~= reduced_grid(kernels[c]));
        assert(rotated_values(l.image, row, c) =~~= reduced_grid(images[c]));
    }
    assert(channel_values(l.kernel, row, n) =~= reduced_stack(kernels));
    assert forall|c: int| 0 <= c < n implies #[trigger] channel_values(l.image, row, n)[c]
        == reduced_stack(images)[c] by {
        assert(channel_values(l.kernel, row, n)[c] == reduced_stack(kernels)[c]);
    }
    assert(channel_values(l.image, row, n) =~= reduced_stack(images));
    assert forall|oh: int, ow: int|
        0 <= oh < g.out_height() && 0 <= ow < g.out_width() implies eval(
        #[trigger] conv_constraint(l, g, n, oh, ow),
        row,
    ) == 0 by {
        lemma_channel_known(kernels, images, g, oh, ow, n);
        lemma_conv_gate(l, g, row, n, oh, ow);
        let s = channel_sum(kernels, images, g, oh, ow, n);
        assert(sums[oh][ow] == s);
        lemma_agrees_grid(
            row,
            config.output.columns@,
            base + n,
            sums,
            config.output.columns@.len(),
            base,
            oh,
            ow,
        );
        lemma_small_mod(s->0, modulus());
    }
    assert forall|t: int| 0 <= t < config.polys().len() implies eval(
        #[trigger] guarded_all(selector_view(config.selector), config.polys())[t],
        row,
    ) == 0 by {
        let width = g.out_width();
        let height = g.out_height();
        lemma_fundamental_div_mod(t, width);
        lemma_mod_bound(t, width);
        assert(0 <= t / width < height) by (nonlinear_arith)
            requires
                0 <= t < height * width,
                width > 0,
                t == width * (t / width) + t % width,
                0 <= t % width < width,
        ;
        assert(eval(conv_constraint(l, g, n, t / width, t % width), row) == 0);
        lemma_guarded(selector_view(config.selector), config.polys()[t], row);
    }
}

/// A filter that the backend accepted left a witness that the layer's gate
/// accepts: where a region was asked, from state `a` to state `b`, for the
/// whole filter from row `base` on, of known images and kernels of the
/// layer's dimensions, on rows that hold, read from row `base`, what the
/// region was asked for since `a` the layer's selector is set and every
/// constraint of its gate evaluates to zero.
pub proof fn lemma_filter_accepted<
    const KERNEL_HEIGHT: usize,
    const KERNEL_WIDTH: usize,
    const OUT_CHANNELS: usize,
    const STRIDE: usize,
    const IMAGE_HEIGHT: usize,
    const IMAGE_WIDTH: usize,
    const IN_CHANNELS: usize,
    const PADDING: usize,
>(
    config: Config<
        KERNEL_HEIGHT,
        KERNEL_WIDTH,
        OUT_CHANNELS,
        STRIDE,
        IMAGE_HEIGHT,
        IMAGE_WIDTH,
        IN_CHANNELS,
        PADDING,
    >,
    a: LayoutRegion<'_>,
    b: LayoutRegion<'_>,
    base: nat,
    images: Seq<Seq<Seq<Option<nat>>>>,
    kernels: Seq<Seq<Seq<Option<nat>>>>,
    g: Geometry,
    row: Row,
)
    requires
        config.wf(),
        g == Config::<
            KERNEL_HEIGHT,
            KERNEL_WIDTH,
            OUT_CHANNELS,
            STRIDE,
            IMAGE_HEIGHT,
            IMAGE_WIDTH,
            IN_CHANNELS,
            PADDING,
        >::shape(),
        images.len() == IN_CHANNELS,
        kernels.len() == IN_CHANNELS,
        forall|c: int|
            0 <= c < IN_CHANNELS ==> fit(#[trigger] kernels[c], images[c], g) && grid_known(
                kernels[c],
            ) && grid_known(images[c]),
        region_log(b) == region_log(a) + config.filter_requests(base, images, kernels),
        agrees(row, region_log(b).skip(region_log(a).len() as int), base),
    ensures
        (row.selector)(selector_view(config.selector).0),
        forall|t: int|
            0 <= t < config.polys().len() ==> eval(
                #[trigger] guarded_all(selector_view(config.selector), config.polys())[t],
                row,
            ) == 0,
{
    let asked = config.filter_requests(base, images, kernels);
    assert(region_log(b).skip(region_log(a).len() as int) =~= asked);
    lemma_filter_witness(config, base, images, kernels, g, row);
}

/// Whether the columns of a grid of `cols` columns a row are the advice
/// columns from index `base` on, row after row.
pub open spec fn grid_from(grid: Seq<Vec<AdviceColumn>>, base: nat, rows: nat, cols: nat) -> bool {
    &&& grid.len() == rows
    &&& forall|i: int| 0 <= i < rows ==> (#[trigger] grid[i]).len() == cols
    &&& forall|i: int, j: int|
        0 <= i < rows && 0 <= j < cols ==> column_index(#[trigger] grid[i]@[j]) == base + i * cols
            + j
}

/// The entry of a grid of `cols` columns a row that column `c` stands for,
/// where the grid's columns start at `base`.
pub open spec fn entry_at(
    values: Seq<Seq<Option<nat>>>,
    base: nat,
    cols: nat,
    c: nat,
) -> nat {
    values[(c - base) / (cols as int)][(c - base) % (cols as int)]->0
}

/// The rows of a filter on which, channel `c` on row `c`, the image cells
/// from column `first` on hold the channel's image and the kernel cells from
/// column `kernel_base` on hold the channel's kernel, the row after the last
/// channel holds `sums` in the output cells from column `first` on, every
/// other cell holds zero, and `selector` alone is set.
pub open spec fn filter_rows(
    g: Geometry,
    channels: nat,
    first: nat,
    kernel_base: nat,
    selector: nat,
    images: Seq<Seq<Seq<Option<nat>>>>,
    kernels: Seq<Seq<Seq<Option<nat>>>>,
    sums: Seq<Seq<Option<nat>>>,
) -> Row {
    Row {
        advice: |c: nat, r: int|
            if 0 <= r < channels {
                if first <= c < first + g.image_height * g.image_width {
                    entry_at(images[r], first, g.image_width as nat, c)
                } else if kernel_base <= c < kernel_base + g.kernel_height * g.kernel_width {
                    entry_at(kernels[r], kernel_base, g.kernel_width as nat, c)
                } else {
                    0nat
                }
            } else if r == channels && first <= c < first + g.out_height() * g.out_width() {
                entry_at(sums, first, g.out_width() as nat, c)
            } else {
                0nat
            },
        fixed: |c: nat, r: int| 0nat,
        instance: |c: nat, r: int| 0nat,
        selector: |s: nat| s == selector,
    }
}

/// In a grid of `cols` columns a row whose columns start at `base`, the
/// column of entry `(i, j)` stands for that entry, and lies among the grid's
/// columns.
pub proof fn lemma_entry_at(
    values: Seq<Seq<Option<nat>>>,
    base: nat,
    rows: nat,
    cols: nat,
    i: int,
    j: int,
)
    requires
        0 <= i < rows,
        0 <= j < cols,
    ensures
        base <= base + i * cols + j < base + rows * cols,
        entry_at(values, base, cols, (base + i * cols + j) as nat) == values[i][j]->0,
{
    let m = i * cols + j;
    assert(0 <= m < rows * cols) by (nonlinear_arith)
        requires
            0 <= i < rows,
            0 <= j < cols,
            m == i * cols + j,
    ;
    lemma_fundamental_div_mod_converse(m, cols as int, i, j);
}

/// There is a witness that holds what placing a filter from row `base` on
/// asks for: for a layer
/// whose image and output lie over the columns from `first` on and whose
/// kernel lies over columns from `kernel_base` on, beyond those of image and
/// output, the rows `filter_rows`, read from row `base`, hold every value
/// that is written, and have the layer's selector set.
pub proof fn lemma_filter_rows_exist<
    const KERNEL_HEIGHT: usize,
    const KERNEL_WIDTH: usize,
    const OUT_CHANNELS: usize,
    const STRIDE: usize,
    const IMAGE_HEIGHT: usize,
    const IMAGE_WIDTH: usize,
    const IN_CHANNELS: usize,
    const PADDING: usize,
>(
    config: Config<
        KERNEL_HEIGHT,
        KERNEL_WIDTH,
        OUT_CHANNELS,
        STRIDE,
        IMAGE_HEIGHT,
        IMAGE_WIDTH,
        IN_CHANNELS,
        PADDING,
    >,
    base: nat,
    images: Seq<Seq<Seq<Option<nat>>>>,
    kernels: Seq<Seq<Seq<Option<nat>>>>,
    g: Geometry,
    first: nat,
    kernel_base: nat,
)
    requires
        config.wf(),
        g == Config::<
            KERNEL_HEIGHT,
            KERNEL_WIDTH,
            OUT_CHANNELS,
            STRIDE,
            IMAGE_HEIGHT,
            IMAGE_WIDTH,
            IN_CHANNELS,
            PADDING,
        >::shape(),
        grid_from(config.image.columns@, first, IMAGE_HEIGHT as nat, IMAGE_WIDTH as nat),
        grid_from(config.output.columns@, first, g.out_height() as nat, g.out_width() as nat),
        grid_from(config.kernel.columns@, kernel_base, KERNEL_HEIGHT as nat, KERNEL_WIDTH as nat),
        kernel_base >= first + IMAGE_HEIGHT * IMAGE_WIDTH,
    ensures
        agrees(
            filter_rows(
                g,
                IN_CHANNELS as nat,
                first,
                kernel_base,
                selector_view(config.selector).0,
                images,
                kernels,
                sum_grid(kernels, images, g, IN_CHANNELS as nat),
            ),
            config.filter_requests(base, images, kernels),
            base,
        ),
{
    let n = IN_CHANNELS as nat;
    let selector = selector_view(config.selector).0;
    let sums = sum_grid(kernels, images, g, n);
    let row = filter_rows(g, n, first, kernel_base, selector, images, kernels, sums);
    let enable = seq![Request::Enable { selector, offset: base }];
    let placed = channel_requests(
        config.image.columns@,
        config.kernel.columns@,
        base,
        images,
        kernels,
        n,
    );
    let written = grid_assigns(config.output.columns@, base + n, sums, config.output.columns@.len());
    assert(agrees(row, enable, base));
    lemma_filter_rows_channels(config, base, images, kernels, g, first, kernel_base, sums, n);
    assert forall|i: int, j: int|
        0 <= i < g.out_height() && 0 <= j < config.output.columns@[i]@.len() && sums[i][j] is Some
        implies (row.advice)(column_index(#[trigger] config.output.columns@[i]@[j]), n as int)
        % modulus() == sums[i][j]->0 % modulus() by {
        lemma_entry_at(sums, first, g.out_height() as nat, g.out_width() as nat, i, j);
    }
    lemma_grid_held(row, config.output.columns@, base + n, sums, g.out_height() as nat, base);
    lemma_agrees_concat(row, enable, placed, base);
    lemma_agrees_concat(row, enable + placed, written, base);
}

proof fn lemma_filter_rows_channels<
    const KERNEL_HEIGHT: usize,
    const KERNEL_WIDTH: usize,
    const OUT_CHANNELS: usize,
    const STRIDE: usize,
    const IMAGE_HEIGHT: usize,
    const IMAGE_WIDTH: usize,
    const IN_CHANNELS: usize,
    const PADDING: usize,
>(
    config: Config<
        KERNEL_HEIGHT,
        KERNEL_WIDTH,
        OUT_CHANNELS,
        STRIDE,
        IMAGE_HEIGHT,
        IMAGE_WIDTH,
        IN_CHANNELS,
        PADDING,
    >,
    base: nat,
    images: Seq<Seq<Seq<Option<nat>>>>,
    kernels: Seq<Seq<Seq<Option<nat>>>>,
    g: Geometry,
    first: nat,
    kernel_base: nat,
    sums: Seq<Seq<Option<nat>>>,
    m: nat,
)
    requires
        m <= IN_CHANNELS,
        g.kernel_height == KERNEL_HEIGHT,
        g.kernel_width == KERNEL_WIDTH,
        g.image_height == IMAGE_HEIGHT,
        g.image_width == IMAGE_WIDTH,
        grid_from(config.image.columns@, first, IMAGE_HEIGHT as nat, IMAGE_WIDTH as nat),
        grid_from(config.kernel.columns@, kernel_base, KERNEL_HEIGHT as nat, KERNEL_WIDTH as nat),
        kernel_base >= first + IMAGE_HEIGHT * IMAGE_WIDTH,
    ensures
        agrees(
            filter_rows(
                g,
                IN_CHANNELS as nat,
                first,
                kernel_base,
                selector_view(config.selector).0,
                images,
                kernels,
                sums,
            ),
            channel_requests(
                config.image.columns@,
                config.kernel.columns@,
                base,
                images,
                kernels,
                m,
            ),
            base,
        ),
    decreases m,
{
    let n = IN_CHANNELS as nat;
    let row = filter_rows(
        g,
        n,
        first,
        kernel_base,
        selector_view(config.selector).0,
        images,
        kernels,
        sums,
    );
    if m > 0 {
        let c = (m - 1) as nat;
        lemma_filter_rows_channels(config, base, images, kernels, g, first, kernel_base, sums, c);
        let before = channel_requests(
            config.image.columns@,
            config.kernel.columns@,
            base,
            images,
            kernels,
            c,
        );
        let image_writes = grid_assigns(
            config.image.columns@,
            base + c,
            images[c as int],
            config.image.columns@.len(),
        );
        let kernel_writes = grid_assigns(
            config.kernel.columns@,
            base + c,
            kernels[c as int],
            config.kernel.columns@.len(),
        );
        assert forall|i: int, j: int|
            0 <= i < IMAGE_HEIGHT && 0 <= j < config.image.columns@[i]@.len()
                && images[c as int][i][j] is Some implies (row.advice)(
            column_index(#[trigger] config.image.columns@[i]@[j]),
            c as int,
        ) % modulus() == images[c as int][i][j]->0 % modulus() by {
            lemma_entry_at(
                images[c as int],
                first,
                IMAGE_HEIGHT as nat,
                IMAGE_WIDTH as nat,
                i,
                j,
            );
        }
        lemma_grid_held(
            row,
            config.image.columns@,
            base + c,
            images[c as int],
            IMAGE_HEIGHT as nat,
            base,
        );
        assert forall|i: int, j: int|
            0 <= i < KERNEL_HEIGHT && 0 <= j < config.kernel.columns@[i]@.len()
                && kernels[c as int][i][j] is Some implies (row.advice)(
            column_index(#[trigger] config.kernel.columns@[i]@[j]),
            c as int,
        ) % modulus() == kernels[c as int][i][j]->0 % modulus() by {
            lemma_entry_at(
                kernels[c as int],
                kernel_base,
                KERNEL_HEIGHT as nat,
                KERNEL_WIDTH as nat,
                i,
                j,
            );
        }
        lemma_grid_held(
            row,
            config.kernel.columns@,
            base + c,
            kernels[c as int],
            KERNEL_HEIGHT as nat,
            base,
        );
        lemma_agrees_concat(row, before, image_writes, base);
        lemma_agrees_concat(row, before + image_writes, kernel_writes, base);
    }
}

} // verus!
