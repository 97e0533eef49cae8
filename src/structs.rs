//! The records that flow between the codec's stages.
use vstd::prelude::*;

verus! {

/// The four cells of a 2x2 neighbourhood: `y1` top left, `y2` top right,
/// `y3` bottom left and `y4` bottom right.
#[derive(Clone, Copy, Debug, PartialEq, Eq)]
pub struct Block<T> {
    pub y1: T,
    pub y2: T,
    pub y3: T,
    pub y4: T,
}

/// The quantized transform of one block: the luma average `a`, the three
/// luma differences `b`, `c`, `d`, and the indices of the two averaged
/// chroma values in the chroma quantization table.
#[derive(Clone, Copy, Debug, PartialEq, Eq)]
pub struct DCTCoefficient {
    pub a: u64,
    pub b: i64,
    pub c: i64,
    pub d: i64,
    pub index_of_pb: usize,
    pub index_of_pr: usize,
}

} // verus!
