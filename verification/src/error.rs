use vstd::prelude::*;

verus! {

/// Errors reported by the encoder's verified building blocks.
#[derive(Debug, Clone, Copy, PartialEq, Eq, Structural)]
pub enum Error {
    /// A box payload was empty.
    InvalidBox,
    /// A transform map names a transform id that is not a known transform.
    InvalidVarDCTTransform(usize),
    /// A transform covers blocks outside the region being processed.
    HFBlockOutOfBounds,
    /// A token refers to a context outside the context map.
    InvalidAnsHistogram,
}

} // verus!
