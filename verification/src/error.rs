//! The errors a layer reports.

use vstd::prelude::*;
use halo2_proofs::plonk::Error;

verus! {

/// `halo2_proofs::plonk::Error`: the backend's error, opaque here.
#[verifier::external_type_specification]
#[verifier::external_body]
pub struct ExError(Error);

/// Why configuring or assigning a layer failed.
#[derive(Debug)]
pub enum LayerError {
    /// A tensor's dimensions do not fit the layer's.
    Shape,
    /// An integer lies outside the range that the field encoding supports.
    OutOfRange,
    /// The proving backend refused a cell write, a copy or a selector.
    Backend(Error),
}

/// The backend's error in a result of a layer, if it holds one.
pub open spec fn refusal<T>(r: Result<T, LayerError>) -> Option<Error> {
    match r {
        Err(LayerError::Backend(e)) => Some(e),
        _ => None,
    }
}

impl LayerError {
    /// Passes a backend result on, its error as `LayerError::Backend`.
    pub fn lift<T>(r: Result<T, Error>) -> (out: Result<T, LayerError>)
        ensures
            match r {
                Ok(v) => out == Ok::<T, LayerError>(v),
                Err(e) => out == Err::<T, LayerError>(LayerError::Backend(e)),
            },
    {
        match r {
            Ok(v) => Ok(v),
            Err(e) => Err(LayerError::Backend(e)),
        }
    }

    /// The description of each kind of error.
    pub open spec fn text(&self) -> Seq<char> {
        match self {
            LayerError::Shape => "tensor shape does not match the layer"@,
            LayerError::OutOfRange => "integer outside the encodable range"@,
            LayerError::Backend(_) => "the proving backend reported an error"@,
        }
    }

    /// A short description of the error: one text for each kind.
    pub fn message(&self) -> (s: String)
        ensures
            s@ == self.text(),
    {
        match self {
            LayerError::Shape => "tensor shape does not match the layer".to_string(),
            LayerError::OutOfRange => "integer outside the encodable range".to_string(),
            LayerError::Backend(_) => "the proving backend reported an error".to_string(),
        }
    }
}

} // verus!
