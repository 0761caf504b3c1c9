//! Arithmetization of feed-forward neural-network layers into constraint gates
//! and witness assignments over the Pallas base field.
//!
//! A layer is configured once on a constraint system: it takes its columns and
//! registers its gate. It is then assigned once for each proof: it encodes its
//! integer parameters as field elements, computes its output on the values of
//! its input cells, and asks a region to write all of them. Gate and forward
//! pass are stated over the same sums of products, and the laws of each layer
//! show that its gate accepts exactly the witness of its forward pass.
//!
//! - `field`, `encoder`: field elements and the encoding of signed integers.
//! - `tensor`, `cells`: vectors and grids of values, columns and cells.
//! - `term`: the arithmetic of the layers, written once over witness values and
//!   constraint expressions alike.
//! - `gate`, `witness`: what a constraint says on a row, and the rows that a
//!   layer's requests describe.
//! - `backend`: the calls into the proving backend and what is relied on of
//!   each.
//! - `affine`, `affine_config`, `affine_assign`, `affine_laws`: the affine
//!   layer `W * input + b`.
//! - `conv`, `conv_config`, `conv_assign`, `conv_laws`: the strided, padded
//!   convolution over several input and output channels.

pub mod error;
pub mod field;
pub mod encoder;
pub mod gate;
pub mod backend;
pub mod tensor;
pub mod cells;
pub mod witness;
pub mod term;
pub mod affine;
pub mod affine_config;
pub mod affine_assign;
pub mod affine_laws;
pub mod conv;
pub mod conv_config;
pub mod conv_assign;
pub mod conv_laws;
