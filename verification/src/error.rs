//! The ways in which a bank can be refused.

use vstd::prelude::*;

verus! {

/// Why a bank, or one of its samples, could not be repackaged.
#[derive(Debug, Clone, Copy, PartialEq, Eq, Structural)]
pub enum Error {
    /// A structure is malformed: a wrong magic number, version, codec
    /// identifier, sync code or reserved bit, a codec configuration that
    /// cannot be cut into words, sample offsets that run backwards, or input
    /// that ends inside the headers.
    StructuralParse,
    /// A sample carries no codec configuration record.
    MissingMetadata,
    /// The sample data cannot be read in whole blocks: the input, or the
    /// sample's extent, ends inside a block.
    ShortRead,
}

} // verus!
