//! Dense matrix text interchange: reading and writing of whitespace-delimited
//! matrices and vectors, generic over the scalar type of their entries.

pub mod error;
pub mod io;
pub mod matrices;
pub mod matrix;
pub mod number;
pub mod round_trip;
pub mod solve;
pub mod text;
pub mod util;
