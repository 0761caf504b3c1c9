//! What a gate says: the polynomial that a constraint expression stands for,
//! and its value on one row of the witness.

use vstd::prelude::*;
use crate::field::{add_mod, modulus, mul_mod, neg_mod};

verus! {

/// The polynomial that a constraint expression stands for. Columns and
/// selectors are named by their index, a rotation is the row offset at which a
/// column is read.
pub enum Poly {
    Constant(nat),
    Selector { index: nat, simple: bool },
    Fixed { column: nat, rotation: int },
    Advice { column: nat, rotation: int },
    Instance { column: nat, rotation: int },
    Negated(Box<Poly>),
    Sum(Box<Poly>, Box<Poly>),
    Product(Box<Poly>, Box<Poly>),
    Scaled(Box<Poly>, nat),
}

/// The values around one row: what each column holds at each rotation from it,
/// and which selectors are set on it.
pub struct Row {
    pub advice: spec_fn(nat, int) -> nat,
    pub fixed: spec_fn(nat, int) -> nat,
    pub instance: spec_fn(nat, int) -> nat,
    pub selector: spec_fn(nat) -> bool,
}

/// The advice cell of `column` at `rotation`.
pub open spec fn advice(column: nat, rotation: int) -> Poly {
    Poly::Advice { column, rotation }
}

/// Whether a simple selector occurs in the polynomial.
pub open spec fn has_simple_selector(p: Poly) -> bool
    decreases p,
{
    match p {
        Poly::Selector { index, simple } => simple,
        Poly::Negated(a) => has_simple_selector(*a),
        Poly::Sum(a, b) => has_simple_selector(*a) || has_simple_selector(*b),
        Poly::Product(a, b) => has_simple_selector(*a) || has_simple_selector(*b),
        Poly::Scaled(a, c) => has_simple_selector(*a),
        _ => false,
    }
}

/// The value of the polynomial on a row, in `[0, p)`.
pub open spec fn eval(p: Poly, row: Row) -> nat
    decreases p,
{
    match p {
        Poly::Constant(c) => c % modulus(),
        Poly::Selector { index, simple } => if (row.selector)(index) {
            1
        } else {
            0
        },
        Poly::Fixed { column, rotation } => (row.fixed)(column, rotation) % modulus(),
        Poly::Advice { column, rotation } => (row.advice)(column, rotation) % modulus(),
        Poly::Instance { column, rotation } => (row.instance)(column, rotation) % modulus(),
        Poly::Negated(a) => neg_mod(eval(*a, row)),
        Poly::Sum(a, b) => add_mod(eval(*a, row), eval(*b, row)),
        Poly::Product(a, b) => mul_mod(eval(*a, row), eval(*b, row)),
        Poly::Scaled(a, c) => mul_mod(eval(*a, row), c),
    }
}

/// A constraint under its enable flag: the product of the selector and the
/// constraint.
pub open spec fn guarded(selector: (nat, bool), p: Poly) -> Poly {
    Poly::Product(
        Box::new(Poly::Selector { index: selector.0, simple: selector.1 }),
        Box::new(p),
    )
}

/// The constraints of one gate, each under that gate's enable flag.
pub open spec fn guarded_all(selector: (nat, bool), polys: Seq<Poly>) -> Seq<Poly> {
    Seq::new(polys.len(), |i: int| guarded(selector, polys[i]))
}

/// The value of a polynomial is a residue.
pub proof fn lemma_eval_bound(p: Poly, row: Row)
    ensures
        eval(p, row) < modulus(),
    decreases p,
{
    match p {
        Poly::Negated(a) => {
            lemma_eval_bound(*a, row);
        },
        _ => {},
    }
}

/// On a row where the enable flag is not set, a guarded constraint holds
/// whatever the cells hold; where it is set, it holds exactly when the
/// constraint itself evaluates to zero.
pub proof fn lemma_guarded(selector: (nat, bool), p: Poly, row: Row)
    ensures
        !(row.selector)(selector.0) ==> eval(guarded(selector, p), row) == 0,
        (row.selector)(selector.0) ==> eval(guarded(selector, p), row) == eval(p, row),
{
    reveal_with_fuel(eval, 2);
    lemma_eval_bound(p, row);
    let v = eval(p, row);
    if (row.selector)(selector.0) {
        assert(1 * v == v);
        vstd::arithmetic::div_mod::lemma_small_mod(v, modulus());
    } else {
        assert(0 * v == 0);
    }
}

} // verus!
