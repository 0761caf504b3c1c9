//! Signed integers as field elements, and back.
//!
//! An integer `x` with `|x| <= i32::MAX` is encoded as its residue modulo `p`:
//! `x` itself when it is not negative, `p - |x|` when it is. Every other
//! integer, `i32::MIN` among them, is refused.

use vstd::prelude::*;
use vstd::arithmetic::div_mod::{lemma_mod_add_multiples_vanish, lemma_small_mod};
use pasta_curves::Fp;
use crate::error::LayerError;
use crate::field::{
    fp_from_u64, fp_neg, fp_value, fp_words, modulus, value_view, values_view, words_value,
};

verus! {

/// The largest magnitude that can be encoded.
pub const ENCODE_MAX: i32 = 0x7fff_ffff;

/// The integers that the encoding supports.
pub open spec fn in_range(x: int) -> bool {
    -ENCODE_MAX <= x <= ENCODE_MAX
}

/// The residue that encodes `x`.
pub open spec fn encode_value(x: int) -> nat {
    (x % (modulus() as int)) as nat
}

/// The integer that the residue `v` encodes, if it encodes one in range.
pub open spec fn decode_value(v: nat) -> Option<int> {
    if v <= ENCODE_MAX {
        Some(v as int)
    } else if v < modulus() && modulus() - v <= ENCODE_MAX {
        Some(v - modulus())
    } else {
        None
    }
}

/// Encodes a signed integer as a field element.
pub fn encode(x: i32) -> (r: Result<Fp, LayerError>)
    ensures
        match r {
            Ok(f) => in_range(x as int) && fp_value(f) == encode_value(x as int),
            Err(e) => !in_range(x as int) && e is OutOfRange,
        },
{
    if x >= 0 {
        let f = fp_from_u64(x as u64);
        proof {
            lemma_small_mod(x as nat, modulus());
        }
        Ok(f)
    } else if x >= -ENCODE_MAX {
        let m: u64 = (-x) as u64;
        let f = fp_neg(fp_from_u64(m));
        proof {
            lemma_small_mod(m as nat, modulus());
            lemma_small_mod((modulus() - m) as nat, modulus());
            lemma_mod_add_multiples_vanish(x as int, modulus() as int);
        }
        Ok(f)
    } else {
        Err(LayerError::OutOfRange)
    }
}

/// Decodes a field element to the signed integer that it encodes.
pub fn decode(f: Fp) -> (r: Result<i32, LayerError>)
    ensures
        match r {
            Ok(x) => decode_value(fp_value(f)) == Some(x as int),
            Err(e) => decode_value(fp_value(f)) is None && e is OutOfRange,
        },
{
    let w = fp_words(f);
    if w.1 == 0 && w.2 == 0 && w.3 == 0 && w.0 <= ENCODE_MAX as u64 {
        return Ok(w.0 as i32);
    }
    let n = fp_words(fp_neg(f));
    proof {
        let v = fp_value(f);
        assert(v > ENCODE_MAX);
        lemma_small_mod(v, modulus());
        lemma_small_mod((modulus() - v) as nat, modulus());
        assert(words_value(n) == modulus() - v);
    }
    if n.1 == 0 && n.2 == 0 && n.3 == 0 && n.0 <= ENCODE_MAX as u64 {
        Ok(-(n.0 as i32))
    } else {
        Err(LayerError::OutOfRange)
    }
}

/// Whether every integer of the vector can be encoded.
pub open spec fn all_in_range(v: Seq<i32>) -> bool {
    forall|i: int| 0 <= i < v.len() ==> in_range(#[trigger] v[i] as int)
}

/// Whether every integer of the grid can be encoded.
pub open spec fn grid_in_range(g: Seq<Vec<i32>>) -> bool {
    forall|i: int| 0 <= i < g.len() ==> all_in_range(#[trigger] g[i]@)
}

/// The integers of the vector.
pub open spec fn ints(v: Seq<i32>) -> Seq<int> {
    Seq::new(v.len(), |i: int| v[i] as int)
}

/// The known witness values that encode the integers of the vector.
pub open spec fn encoded_ints(v: Seq<int>) -> Seq<Option<nat>> {
    Seq::new(v.len(), |i: int| Some(encode_value(v[i])))
}

/// The known witness values that encode the integers of the vector.
pub open spec fn encoded(v: Seq<i32>) -> Seq<Option<nat>> {
    encoded_ints(ints(v))
}

/// Encodes each integer of a vector as a known witness value.
pub fn encode_all(v: &Vec<i32>) -> (r: Result<Vec<Option<Fp>>, LayerError>)
    ensures
        match r {
            Ok(e) => all_in_range(v@) && values_view(e@) == encoded(v@),
            Err(e) => !all_in_range(v@) && e is OutOfRange,
        },
{
    let mut out: Vec<Option<Fp>> = Vec::new();
    let mut i: usize = 0;
    while i < v.len()
        invariant
            i <= v.len(),
            out.len() == i,
            forall|k: int| 0 <= k < i ==> in_range(#[trigger] v@[k] as int),
            forall|k: int|
                0 <= k < i ==> value_view(#[trigger] out@[k]) == Some(encode_value(v@[k] as int)),
        decreases v.len() - i,
    {
        match encode(v[i]) {
            Ok(f) => {
                out.push(Some(f));
            },
            Err(e) => {
                return Err(e);
            },
        }
        i = i + 1;
    }
    assert(values_view(out@) =~= encoded(v@));
    Ok(out)
}

/// Encodes each integer of a grid as a known witness value.
pub fn encode_grid(g: &Vec<Vec<i32>>) -> (r: Result<Vec<Vec<Option<Fp>>>, LayerError>)
    ensures
        match r {
            Ok(e) => grid_in_range(g@) && e.len() == g.len() && forall|i: int|
                0 <= i < g.len() ==> values_view(#[trigger] e@[i]@) == encoded(g@[i]@),
            Err(e) => !grid_in_range(g@) && e is OutOfRange,
        },
{
    let mut out: Vec<Vec<Option<Fp>>> = Vec::new();
    let mut i: usize = 0;
    while i < g.len()
        invariant
            i <= g.len(),
            out.len() == i,
            forall|k: int| 0 <= k < i ==> all_in_range(#[trigger] g@[k]@),
            forall|k: int| 0 <= k < i ==> values_view(#[trigger] out@[k]@) == encoded(g@[k]@),
        decreases g.len() - i,
    {
        match encode_all(&g[i]) {
            Ok(row) => {
                out.push(row);
            },
            Err(e) => {
                return Err(e);
            },
        }
        i = i + 1;
    }
    Ok(out)
}

/// Decoding an encoded integer gives the integer back.
pub proof fn lemma_decode_encode(x: int)
    requires
        in_range(x),
    ensures
        decode_value(encode_value(x)) == Some(x),
{
    if x >= 0 {
        lemma_small_mod(x as nat, modulus());
    } else {
        lemma_small_mod((modulus() + x) as nat, modulus());
        lemma_mod_add_multiples_vanish(x, modulus() as int);
    }
}

/// Two integers in range with the same encoding are the same integer.
pub proof fn lemma_encode_injective(x: int, y: int)
    requires
        in_range(x),
        in_range(y),
        encode_value(x) == encode_value(y),
    ensures
        x == y,
{
    lemma_decode_encode(x);
    lemma_decode_encode(y);
}

} // verus!
