//! The arithmetic of the layers, written once over what a layer computes on:
//! a witness value, for the forward pass, or a constraint expression, for the
//! gate. Both are terms; each layer's sum of products is one function on
//! terms, and the model of its result is one formula.

use vstd::prelude::*;
use halo2_proofs::plonk::Expression;
use pasta_curves::Fp;
use crate::backend::{expr_add, expr_clone, expr_constant, expr_mul, expr_neg, expr_poly};
use crate::conv::Geometry;
use crate::field::{
    add_opt, fp_from_u64, fp_neg, mul_opt, neg_mod, value_add, value_mul, value_view, value_zero,
};
use crate::gate::{has_simple_selector, Poly};
use crate::tensor::has_shape;

verus! {

/// What a layer computes on. A term has a model, what it stands for, and the
/// operations on terms are stated on their models.
pub trait Term: Sized {
    /// What terms stand for.
    type Model;

    /// What the term stands for.
    spec fn model(&self) -> Self::Model;

    /// Whether the term may enter sums and products.
    spec fn usable(&self) -> bool;

    /// What zero stands for.
    spec fn zero_model() -> Self::Model;

    /// What the negation of a term stands for.
    spec fn negated_model(a: Self::Model) -> Self::Model;

    /// What the sum of two terms stands for.
    spec fn sum_model(a: Self::Model, b: Self::Model) -> Self::Model;

    /// What the product of two terms stands for.
    spec fn product_model(a: Self::Model, b: Self::Model) -> Self::Model;

    /// The term zero.
    fn zero() -> (r: Self)
        ensures
            r.model() == Self::zero_model(),
            r.usable(),
    ;

    /// The same term again.
    fn duplicate(&self) -> (r: Self)
        ensures
            r.model() == self.model(),
            r.usable() == self.usable(),
    ;

    /// The negated term.
    fn negated(self) -> (r: Self)
        requires
            self.usable(),
        ensures
            r.model() == Self::negated_model(self.model()),
            r.usable(),
    ;

    /// The sum of two terms.
    fn sum(self, other: Self) -> (r: Self)
        requires
            self.usable(),
            other.usable(),
        ensures
            r.model() == Self::sum_model(self.model(), other.model()),
            r.usable(),
    ;

    /// The product of two terms.
    fn product(self, other: Self) -> (r: Self)
        requires
            self.usable(),
            other.usable(),
        ensures
            r.model() == Self::product_model(self.model(), other.model()),
            r.usable(),
    ;
}

/// The negation of a witness value; unknown if the value is.
pub open spec fn neg_opt(a: Option<nat>) -> Option<nat> {
    match a {
        Some(x) => Some(neg_mod(x)),
        None => None,
    }
}

/// Negates a witness value.
pub fn value_neg(a: Option<Fp>) -> (r: Option<Fp>)
    ensures
        value_view(r) == neg_opt(value_view(a)),
{
    match a {
        Some(x) => Some(fp_neg(x)),
        None => None,
    }
}

impl Term for Option<Fp> {
    type Model = Option<nat>;

    open spec fn model(&self) -> Option<nat> {
        value_view(*self)
    }

    open spec fn usable(&self) -> bool {
        true
    }

    open spec fn zero_model() -> Option<nat> {
        Some(0nat)
    }

    open spec fn negated_model(a: Option<nat>) -> Option<nat> {
        neg_opt(a)
    }

    open spec fn sum_model(a: Option<nat>, b: Option<nat>) -> Option<nat> {
        add_opt(a, b)
    }

    open spec fn product_model(a: Option<nat>, b: Option<nat>) -> Option<nat> {
        mul_opt(a, b)
    }

    fn zero() -> (r: Self) {
        value_zero()
    }

    fn duplicate(&self) -> (r: Self) {
        *self
    }

    fn negated(self) -> (r: Self) {
        value_neg(self)
    }

    fn sum(self, other: Self) -> (r: Self) {
        value_add(self, other)
    }

    fn product(self, other: Self) -> (r: Self) {
        value_mul(self, other)
    }
}

impl Term for Expression<Fp> {
    type Model = Poly;

    open spec fn model(&self) -> Poly {
        expr_poly(*self)
    }

    open spec fn usable(&self) -> bool {
        !has_simple_selector(expr_poly(*self))
    }

    open spec fn zero_model() -> Poly {
        Poly::Constant(0)
    }

    open spec fn negated_model(a: Poly) -> Poly {
        Poly::Negated(Box::new(a))
    }

    open spec fn sum_model(a: Poly, b: Poly) -> Poly {
        Poly::Sum(Box::new(a), Box::new(b))
    }

    open spec fn product_model(a: Poly, b: Poly) -> Poly {
        Poly::Product(Box::new(a), Box::new(b))
    }

    fn zero() -> (r: Self) {
        proof {
            reveal_with_fuel(has_simple_selector, 2);
        }
        expr_constant(fp_from_u64(0))
    }

    fn duplicate(&self) -> (r: Self) {
        expr_clone(self)
    }

    fn negated(self) -> (r: Self) {
        proof {
            reveal_with_fuel(has_simple_selector, 2);
        }
        expr_neg(self)
    }

    fn sum(self, other: Self) -> (r: Self) {
        proof {
            reveal_with_fuel(has_simple_selector, 2);
        }
        expr_add(self, other)
    }

    fn product(self, other: Self) -> (r: Self) {
        proof {
            reveal_with_fuel(has_simple_selector, 2);
        }
        expr_mul(self, other)
    }
}

/// The model of each of a vector of terms.
pub open spec fn models<T: Term>(v: Seq<T>) -> Seq<T::Model> {
    Seq::new(v.len(), |i: int| v[i].model())
}

/// The model of each of a grid of terms.
pub open spec fn grid_models<T: Term>(g: Seq<Vec<T>>) -> Seq<Seq<T::Model>> {
    Seq::new(g.len(), |i: int| models(g[i]@))
}

/// Whether every term of the vector may enter sums and products.
pub open spec fn all_usable<T: Term>(v: Seq<T>) -> bool {
    forall|i: int| 0 <= i < v.len() ==> (#[trigger] v[i]).usable()
}

/// Whether every term of the grid may enter sums and products.
pub open spec fn grid_usable<T: Term>(g: Seq<Vec<T>>) -> bool {
    forall|i: int| 0 <= i < g.len() ==> all_usable((#[trigger] g[i])@)
}

/// `start` plus the first `n` products `w[k] * x[k]`, added one after
/// another.
pub open spec fn linear_model<T: Term>(
    start: T::Model,
    w: Seq<T::Model>,
    x: Seq<T::Model>,
    n: nat,
) -> T::Model
    decreases n,
{
    if n == 0 {
        start
    } else {
        T::sum_model(
            linear_model::<T>(start, w, x, (n - 1) as nat),
            T::product_model(w[n - 1], x[n - 1]),
        )
    }
}

/// `start` plus the products `w[k] * x[k]` plus `b`.
pub open spec fn affine_model<T: Term>(
    start: T::Model,
    w: Seq<T::Model>,
    x: Seq<T::Model>,
    b: T::Model,
) -> T::Model {
    T::sum_model(linear_model::<T>(start, w, x, x.len()), b)
}

/// The sum of the products of kernel entry and image entry over the taps that
/// meet the image, taken in reading order up to, not including, kernel entry
/// `(kh, kw)`, starting from zero.
pub open spec fn correlation_model<T: Term>(
    kernel: Seq<Seq<T::Model>>,
    image: Seq<Seq<T::Model>>,
    g: Geometry,
    oh: int,
    ow: int,
    kh: nat,
    kw: nat,
) -> T::Model
    decreases kh, kw,
{
    if kw == 0 {
        if kh == 0 {
            T::zero_model()
        } else {
            correlation_model::<T>(
                kernel,
                image,
                g,
                oh,
                ow,
                (kh - 1) as nat,
                g.kernel_width as nat,
            )
        }
    } else {
        let before = correlation_model::<T>(kernel, image, g, oh, ow, kh, (kw - 1) as nat);
        if g.inside(oh, ow, kh as int, kw - 1) {
            T::sum_model(
                before,
                T::product_model(
                    kernel[kh as int][kw - 1],
                    image[g.tap(oh, kh as int)][g.tap(ow, kw - 1)],
                ),
            )
        } else {
            before
        }
    }
}

/// `start` plus the products of the entries of `w` and `x`, added one after
/// another.
pub fn linear_term<T: Term>(start: T, w: &Vec<T>, x: &Vec<T>) -> (acc: T)
    requires
        w.len() == x.len(),
        start.usable(),
        all_usable(w@),
        all_usable(x@),
    ensures
        acc.model() == linear_model::<T>(
            start.model(),
            models(w@),
            models(x@),
            x.len() as nat,
        ),
        acc.usable(),
{
    let ghost first = start.model();
    let mut acc = start;
    let mut j: usize = 0;
    while j < x.len()
        invariant
            j <= x.len(),
            w.len() == x.len(),
            all_usable(w@),
            all_usable(x@),
            acc.usable(),
            acc.model() == linear_model::<T>(first, models(w@), models(x@), j as nat),
        decreases x.len() - j,
    {
        let term = w[j].duplicate().product(x[j].duplicate());
        acc = acc.sum(term);
        j = j + 1;
    }
    acc
}

/// One output of an affine layer on terms: `start`, then the products of the
/// row of weights and the input, then the bias.
pub fn affine_term<T: Term>(start: T, w: &Vec<T>, x: &Vec<T>, b: &T) -> (r: T)
    requires
        w.len() == x.len(),
        start.usable(),
        all_usable(w@),
        all_usable(x@),
        b.usable(),
    ensures
        r.model() == affine_model::<T>(start.model(), models(w@), models(x@), b.model()),
        r.usable(),
{
    linear_term(start, w, x).sum(b.duplicate())
}

/// The correlation of a kernel of terms with an image of terms at one output
/// position.
pub fn correlate_at<T: Term>(g: &Geometry, kernel: &Vec<Vec<T>>, image: &Vec<Vec<T>>, oh: usize, ow: usize) -> (acc:
    T)
    requires
        g.valid(),
        has_shape(kernel@, g.kernel_height as nat, g.kernel_width as nat),
        has_shape(image@, g.image_height as nat, g.image_width as nat),
        grid_usable(kernel@),
        grid_usable(image@),
    ensures
        acc.model() == correlation_model::<T>(
            grid_models(kernel@),
            grid_models(image@),
            *g,
            oh as int,
            ow as int,
            g.kernel_height as nat,
            0,
        ),
        acc.usable(),
{
    let mut acc = T::zero();
    let mut kh: usize = 0;
    while kh < g.kernel_height
        invariant
            kh <= g.kernel_height,
            g.valid(),
            has_shape(kernel@, g.kernel_height as nat, g.kernel_width as nat),
            has_shape(image@, g.image_height as nat, g.image_width as nat),
            grid_usable(kernel@),
            grid_usable(image@),
            acc.usable(),
            acc.model() == correlation_model::<T>(
                grid_models(kernel@),
                grid_models(image@),
                *g,
                oh as int,
                ow as int,
                kh as nat,
                0,
            ),
        decreases g.kernel_height - kh,
    {
        let row = g.tap_index(oh, kh, g.image_height);
        let mut kw: usize = 0;
        while kw < g.kernel_width
            invariant
                kw <= g.kernel_width,
                kh < g.kernel_height,
                g.valid(),
                has_shape(kernel@, g.kernel_height as nat, g.kernel_width as nat),
                has_shape(image@, g.image_height as nat, g.image_width as nat),
                grid_usable(kernel@),
                grid_usable(image@),
                match row {
                    Some(i) => i == g.tap(oh as int, kh as int) && i < g.image_height,
                    None => !(0 <= g.tap(oh as int, kh as int) < g.image_height),
                },
                acc.usable(),
                acc.model() == correlation_model::<T>(
                    grid_models(kernel@),
                    grid_models(image@),
                    *g,
                    oh as int,
                    ow as int,
                    kh as nat,
                    kw as nat,
                ),
            decreases g.kernel_width - kw,
        {
            if let Some(i) = row {
                if let Some(j) = g.tap_index(ow, kw, g.image_width) {
                    proof {
                        assert(all_usable(kernel@[kh as int]@));
                        assert(all_usable(image@[i as int]@));
                    }
                    let term = kernel[kh][kw].duplicate().product(image[i][j].duplicate());
                    acc = acc.sum(term);
                }
            }
            kw = kw + 1;
        }
        kh = kh + 1;
    }
    acc
}

/// The correlation of a kernel of terms with an image of terms: the grid of
/// `out_height` by `out_width` sums of products.
pub fn correlate<T: Term>(g: &Geometry, kernel: &Vec<Vec<T>>, image: &Vec<Vec<T>>) -> (out: Vec<Vec<T>>)
    requires
        g.valid(),
        has_shape(kernel@, g.kernel_height as nat, g.kernel_width as nat),
        has_shape(image@, g.image_height as nat, g.image_width as nat),
        grid_usable(kernel@),
        grid_usable(image@),
    ensures
        has_shape(out@, g.out_height() as nat, g.out_width() as nat),
        grid_usable(out@),
        forall|oh: int, ow: int|
            0 <= oh < g.out_height() && 0 <= ow < g.out_width() ==> (
            #[trigger] out@[oh]@[ow]).model() == correlation_model::<T>(
                grid_models(kernel@),
                grid_models(image@),
                *g,
                oh,
                ow,
                g.kernel_height as nat,
                0,
            ),
{
    let height = g.output_height();
    let width = g.output_width();
    let mut out: Vec<Vec<T>> = Vec::new();
    let mut oh: usize = 0;
    while oh < height
        invariant
            oh <= height,
            height == g.out_height(),
            width == g.out_width(),
            g.valid(),
            has_shape(kernel@, g.kernel_height as nat, g.kernel_width as nat),
            has_shape(image@, g.image_height as nat, g.image_width as nat),
            grid_usable(kernel@),
            grid_usable(image@),
            out.len() == oh,
            forall|a: int| 0 <= a < oh ==> (#[trigger] out@[a]).len() == width,
            grid_usable(out@),
            forall|a: int, b: int|
                0 <= a < oh && 0 <= b < width ==> (#[trigger] out@[a]@[b]).model()
                    == correlation_model::<T>(
                    grid_models(kernel@),
                    grid_models(image@),
                    *g,
                    a,
                    b,
                    g.kernel_height as nat,
                    0,
                ),
        decreases height - oh,
    {
        let mut row: Vec<T> = Vec::new();
        let mut ow: usize = 0;
        while ow < width
            invariant
                ow <= width,
                oh < height,
                g.valid(),
                has_shape(kernel@, g.kernel_height as nat, g.kernel_width as nat),
                has_shape(image@, g.image_height as nat, g.image_width as nat),
                grid_usable(kernel@),
                grid_usable(image@),
                row.len() == ow,
                all_usable(row@),
                forall|b: int|
                    0 <= b < ow ==> (#[trigger] row@[b]).model() == correlation_model::<T>(
                        grid_models(kernel@),
                        grid_models(image@),
                        *g,
                        oh as int,
                        b,
                        g.kernel_height as nat,
                        0,
                    ),
            decreases width - ow,
        {
            row.push(correlate_at(g, kernel, image, oh, ow));
            ow = ow + 1;
        }
        out.push(row);
        oh = oh + 1;
    }
    out
}

/// Adds two grids of terms of the same dimensions entry by entry.
pub fn add_term_grids<T: Term>(a: &Vec<Vec<T>>, b: &Vec<Vec<T>>) -> (r: Vec<Vec<T>>)
    requires
        a.len() == b.len(),
        forall|i: int| 0 <= i < a.len() ==> (#[trigger] a@[i]).len() == b@[i].len(),
        grid_usable(a@),
        grid_usable(b@),
    ensures
        r.len() == a.len(),
        forall|i: int| 0 <= i < a.len() ==> (#[trigger] r@[i]).len() == a@[i].len(),
        grid_usable(r@),
        forall|i: int, j: int|
            0 <= i < a.len() && 0 <= j < a@[i].len() ==> (#[trigger] r@[i]@[j]).model()
                == T::sum_model(a@[i]@[j].model(), b@[i]@[j].model()),
{
    let mut out: Vec<Vec<T>> = Vec::new();
    let mut i: usize = 0;
    while i < a.len()
        invariant
            i <= a.len(),
            a.len() == b.len(),
            forall|k: int| 0 <= k < a.len() ==> (#[trigger] a@[k]).len() == b@[k].len(),
            grid_usable(a@),
            grid_usable(b@),
            out.len() == i,
            forall|k: int| 0 <= k < i ==> (#[trigger] out@[k]).len() == a@[k].len(),
            grid_usable(out@),
            forall|k: int, j: int|
                0 <= k < i && 0 <= j < a@[k].len() ==> (#[trigger] out@[k]@[j]).model()
                    == T::sum_model(a@[k]@[j].model(), b@[k]@[j].model()),
        decreases a.len() - i,
    {
        let mut row: Vec<T> = Vec::new();
        let mut j: usize = 0;
        proof {
            assert(all_usable(a@[i as int]@));
            assert(all_usable(b@[i as int]@));
        }
        while j < a[i].len()
            invariant
                j <= a@[i as int].len(),
                i < a.len(),
                a.len() == b.len(),
                a@[i as int].len() == b@[i as int].len(),
                all_usable(a@[i as int]@),
                all_usable(b@[i as int]@),
                row.len() == j,
                all_usable(row@),
                forall|k: int|
                    0 <= k < j ==> (#[trigger] row@[k]).model() == T::sum_model(
                        a@[i as int]@[k].model(),
                        b@[i as int]@[k].model(),
                    ),
            decreases a@[i as int].len() - j,
        {
            row.push(a[i][j].duplicate().sum(b[i][j].duplicate()));
            j = j + 1;
        }
        out.push(row);
        i = i + 1;
    }
    out
}

} // verus!
