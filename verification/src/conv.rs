//! The strided, padded correlation of a kernel with an image, on witness
//! values: no kernel flip, and taps that fall into the padding count as zero.

use vstd::prelude::*;
use pasta_curves::Fp;
use crate::error::LayerError;
use crate::field::{add_opt, grid_view, mul_opt, value_view};
use crate::term::{add_term_grids, correlate, correlation_model, grid_models};
use crate::tensor::{check_shape, has_shape};

verus! {

/// The dimensions of a correlation: kernel, image, stride and padding.
#[derive(Clone, Copy, Debug, PartialEq, Eq, Structural)]
pub struct Geometry {
    pub kernel_height: usize,
    pub kernel_width: usize,
    pub image_height: usize,
    pub image_width: usize,
    pub stride: usize,
    pub padding: usize,
}

/// The number of positions of a kernel of length `kernel` along a padded side
/// of length `image + 2 * padding`, `stride` apart.
pub open spec fn out_size(image: int, kernel: int, stride: int, padding: int) -> int {
    (image + 2 * padding - kernel) / stride + 1
}

impl Geometry {
    /// Whether the output has at least one row and one column and every size
    /// fits the machine: the stride is not zero, and the kernel is no larger
    /// than the padded image.
    pub open spec fn valid(self) -> bool {
        &&& self.stride > 0
        &&& self.kernel_height <= self.image_height + 2 * self.padding <= usize::MAX
        &&& self.kernel_width <= self.image_width + 2 * self.padding <= usize::MAX
        &&& self.out_height() <= usize::MAX
        &&& self.out_width() <= usize::MAX
    }

    /// The height of the output: `floor((IH + 2 * PADDING - KH) / STRIDE) + 1`.
    pub open spec fn out_height(self) -> int {
        out_size(
            self.image_height as int,
            self.kernel_height as int,
            self.stride as int,
            self.padding as int,
        )
    }

    /// The width of the output: `floor((IW + 2 * PADDING - KW) / STRIDE) + 1`.
    pub open spec fn out_width(self) -> int {
        out_size(
            self.image_width as int,
            self.kernel_width as int,
            self.stride as int,
            self.padding as int,
        )
    }

    /// The image index that position `k` of the kernel meets when the kernel
    /// stands at output position `o`; it lies in the padding when it is
    /// negative or beyond the image.
    pub open spec fn tap(self, o: int, k: int) -> int {
        o * self.stride + k - self.padding
    }

    /// Whether the tap of kernel entry `(kh, kw)` at output `(oh, ow)` meets
    /// the image.
    pub open spec fn inside(self, oh: int, ow: int, kh: int, kw: int) -> bool {
        0 <= self.tap(oh, kh) < self.image_height && 0 <= self.tap(ow, kw) < self.image_width
    }

    /// Tells whether the geometry is valid.
    pub fn is_valid(&self) -> (ok: bool)
        ensures
            ok == self.valid(),
    {
        if self.stride == 0 {
            return false;
        }
        let twice = match self.padding.checked_mul(2) {
            Some(t) => t,
            None => {
                return false;
            },
        };
        let height = match self.image_height.checked_add(twice) {
            Some(h) => h,
            None => {
                return false;
            },
        };
        let width = match self.image_width.checked_add(twice) {
            Some(w) => w,
            None => {
                return false;
            },
        };
        if self.kernel_height > height || self.kernel_width > width {
            return false;
        }
        let rows = (height - self.kernel_height) / self.stride;
        let cols = (width - self.kernel_width) / self.stride;
        rows < usize::MAX && cols < usize::MAX
    }

    /// The height of the output.
    pub fn output_height(&self) -> (h: usize)
        requires
            self.valid(),
        ensures
            h == self.out_height(),
            h >= 1,
    {
        let rows = (self.image_height + 2 * self.padding - self.kernel_height) / self.stride;
        rows + 1
    }

    /// The width of the output.
    pub fn output_width(&self) -> (w: usize)
        requires
            self.valid(),
        ensures
            w == self.out_width(),
            w >= 1,
    {
        let cols = (self.image_width + 2 * self.padding - self.kernel_width) / self.stride;
        cols + 1
    }

    /// The image index that position `k` of the kernel meets at output
    /// position `o`, if it is below `limit`; nothing where the tap lies in
    /// the padding.
    pub fn tap_index(&self, o: usize, k: usize, limit: usize) -> (r: Option<usize>)
        requires
            limit + self.padding <= usize::MAX,
        ensures
            match r {
                Some(i) => i == self.tap(o as int, k as int) && i < limit,
                None => !(0 <= self.tap(o as int, k as int) < limit),
            },
    {
        let scaled = match o.checked_mul(self.stride) {
            Some(s) => s,
            None => {
                return None;
            },
        };
        let shifted = match scaled.checked_add(k) {
            Some(s) => s,
            None => {
                return None;
            },
        };
        if shifted < self.padding {
            return None;
        }
        let i = shifted - self.padding;
        if i < limit {
            Some(i)
        } else {
            None
        }
    }
}

/// The sum of the products of kernel entry and image entry over the taps that
/// meet the image, taken in reading order up to, not including, kernel entry
/// `(kh, kw)`; unknown as soon as one of the factors met is.
pub open spec fn conv_acc(
    kernel: Seq<Seq<Option<nat>>>,
    image: Seq<Seq<Option<nat>>>,
    g: Geometry,
    oh: int,
    ow: int,
    kh: nat,
    kw: nat,
) -> Option<nat>
    decreases kh, kw,
{
    if kw == 0 {
        if kh == 0 {
            Some(0nat)
        } else {
            conv_acc(kernel, image, g, oh, ow, (kh - 1) as nat, g.kernel_width as nat)
        }
    } else {
        let before = conv_acc(kernel, image, g, oh, ow, kh, (kw - 1) as nat);
        if g.inside(oh, ow, kh as int, kw - 1) {
            add_opt(
                before,
                mul_opt(kernel[kh as int][kw - 1], image[g.tap(oh, kh as int)][g.tap(ow, kw - 1)]),
            )
        } else {
            before
        }
    }
}

/// The correlation at output position `(oh, ow)`.
pub open spec fn conv_at(
    kernel: Seq<Seq<Option<nat>>>,
    image: Seq<Seq<Option<nat>>>,
    g: Geometry,
    oh: int,
    ow: int,
) -> Option<nat> {
    conv_acc(kernel, image, g, oh, ow, g.kernel_height as nat, 0)
}

/// The sum over the first `n` channels of the correlation of the channel's
/// kernel with the channel's image, at output position `(oh, ow)`.
pub open spec fn channel_sum(
    kernels: Seq<Seq<Seq<Option<nat>>>>,
    images: Seq<Seq<Seq<Option<nat>>>>,
    g: Geometry,
    oh: int,
    ow: int,
    n: nat,
) -> Option<nat>
    decreases n,
{
    if n == 0 {
        Some(0nat)
    } else if n == 1 {
        conv_at(kernels[0], images[0], g, oh, ow)
    } else {
        add_opt(
            channel_sum(kernels, images, g, oh, ow, (n - 1) as nat),
            conv_at(kernels[n - 1], images[n - 1], g, oh, ow),
        )
    }
}

/// The views of a vector of grids of witness values.
pub open spec fn stack_view(s: Seq<Vec<Vec<Option<Fp>>>>) -> Seq<Seq<Seq<Option<nat>>>> {
    Seq::new(s.len(), |c: int| grid_view(s[c]@))
}

/// On witness values, the correlation on terms is the correlation.
pub proof fn lemma_correlation_values(
    kernel: Seq<Seq<Option<nat>>>,
    image: Seq<Seq<Option<nat>>>,
    g: Geometry,
    oh: int,
    ow: int,
    kh: nat,
    kw: nat,
)
    ensures
        correlation_model::<Option<Fp>>(kernel, image, g, oh, ow, kh, kw) == conv_acc(
            kernel,
            image,
            g,
            oh,
            ow,
            kh,
            kw,
        ),
    decreases kh, kw,
{
    if kw == 0 {
        if kh > 0 {
            lemma_correlation_values(
                kernel,
                image,
                g,
                oh,
                ow,
                (kh - 1) as nat,
                g.kernel_width as nat,
            );
        }
    } else {
        lemma_correlation_values(kernel, image, g, oh, ow, kh, (kw - 1) as nat);
    }
}

/// The correlation of the kernel with the image, for a valid geometry and
/// grids of its dimensions.
pub fn convolution_grid(g: &Geometry, kernel: &Vec<Vec<Option<Fp>>>, image: &Vec<Vec<Option<Fp>>>) -> (out:
    Vec<Vec<Option<Fp>>>)
    requires
        g.valid(),
        has_shape(kernel@, g.kernel_height as nat, g.kernel_width as nat),
        has_shape(image@, g.image_height as nat, g.image_width as nat),
    ensures
        has_shape(out@, g.out_height() as nat, g.out_width() as nat),
        forall|oh: int, ow: int|
            0 <= oh < g.out_height() && 0 <= ow < g.out_width() ==> value_view(
                #[trigger] out@[oh]@[ow],
            ) == conv_at(grid_view(kernel@), grid_view(image@), *g, oh, ow),
{
    let out = correlate(g, kernel, image);
    proof {
        assert(grid_models(kernel@) =~~= grid_view(kernel@));
        assert(grid_models(image@) =~~= grid_view(image@));
        assert forall|oh: int, ow: int|
            0 <= oh < g.out_height() && 0 <= ow < g.out_width() implies value_view(
            #[trigger] out@[oh]@[ow],
        ) == conv_at(grid_view(kernel@), grid_view(image@), *g, oh, ow) by {
            lemma_correlation_values(
                grid_view(kernel@),
                grid_view(image@),
                *g,
                oh,
                ow,
                g.kernel_height as nat,
                0,
            );
        }
    }
    out
}

/// The correlation of the kernel with the image: the grid of `out_height` by
/// `out_width` sums.
///
/// Fails with `Shape` where the geometry is not valid, or the kernel or the
/// image has not the dimensions that the geometry names.
pub fn convolution(g: &Geometry, kernel: &Vec<Vec<Option<Fp>>>, image: &Vec<Vec<Option<Fp>>>) -> (r:
    Result<Vec<Vec<Option<Fp>>>, LayerError>)
    ensures
        match r {
            Ok(out) => {
                &&& g.valid()
                &&& has_shape(kernel@, g.kernel_height as nat, g.kernel_width as nat)
                &&& has_shape(image@, g.image_height as nat, g.image_width as nat)
                &&& has_shape(out@, g.out_height() as nat, g.out_width() as nat)
                &&& forall|oh: int, ow: int|
                    0 <= oh < g.out_height() && 0 <= ow < g.out_width() ==> value_view(
                        #[trigger] out@[oh]@[ow],
                    ) == conv_at(grid_view(kernel@), grid_view(image@), *g, oh, ow)
            },
            Err(e) => e is Shape && !(g.valid() && has_shape(
                kernel@,
                g.kernel_height as nat,
                g.kernel_width as nat,
            ) && has_shape(image@, g.image_height as nat, g.image_width as nat)),
        },
{
    if !g.is_valid() || !check_shape(kernel, g.kernel_height, g.kernel_width) || !check_shape(
        image,
        g.image_height,
        g.image_width,
    ) {
        return Err(LayerError::Shape);
    }
    Ok(convolution_grid(g, kernel, image))
}

/// Adds two grids of the same dimensions entry by entry.
pub fn add_grids(a: &Vec<Vec<Option<Fp>>>, b: &Vec<Vec<Option<Fp>>>) -> (r: Vec<Vec<Option<Fp>>>)
    requires
        a.len() == b.len(),
        forall|i: int| 0 <= i < a.len() ==> (#[trigger] a@[i]).len() == b@[i].len(),
    ensures
        r.len() == a.len(),
        forall|i: int| 0 <= i < a.len() ==> (#[trigger] r@[i]).len() == a@[i].len(),
        forall|i: int, j: int|
            0 <= i < a.len() && 0 <= j < a@[i].len() ==> value_view(#[trigger] r@[i]@[j])
                == add_opt(value_view(a@[i]@[j]), value_view(b@[i]@[j])),
{
    add_term_grids(a, b)
}

} // verus!
