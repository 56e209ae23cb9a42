//! Decoder for the MATLAB Level-5 binary container format.
//!
//! A parse takes a fully buffered byte slice and either returns the file
//! header together with the ordered sequence of top-level array elements,
//! or fails atomically with a positioned error.

pub mod bytes;
pub mod header;
pub mod inflate;
pub mod laws;
pub mod matrix;
pub mod numeric;
pub mod parse;
pub mod product;
pub mod subelements;
pub mod tag;
pub mod text;
pub mod types;
