use vstd::prelude::*;

verus! {

/// Errors raised while constructing Clause 6 geometry.
#[derive(Clone, Debug, Eq, PartialEq)]
pub enum GeometryError {
    /// A required dimension was zero.
    ZeroDimension,
    /// A bit depth was outside H.265's 8..=16 range.
    InvalidBitDepth(u8),
    /// Separate colour planes are only defined for 4:4:4 in this clause.
    SeparatePlanesRequire444,
    /// A CTB or minimum transform-block size is invalid.
    InvalidBlockSize,
    /// Tile widths or heights do not cover the picture.
    TileDimensionsDoNotCoverPicture,
    /// Tile dimensions contain a zero-sized tile.
    ZeroSizedTile,
}

} // verus!
