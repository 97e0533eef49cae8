//! A lossy still-image codec over 2x2 pixel blocks, with the grid container and
//! the bit-field primitives that its packed word format is built on.

pub mod array2;
pub mod bitpack;
pub mod conversions;
pub mod structs;
