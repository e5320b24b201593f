use vstd::prelude::*;

verus! {

/// Why loading a trusted setup failed.
#[derive(Clone, Copy, Debug, PartialEq, Eq, Structural)]
pub enum SetupError {
    /// A count line is missing or is not an unsigned decimal integer.
    MalformedHeader,
    /// Fewer point lines are present than the header declares.
    TruncatedFile,
    /// A point line is not an even number of hexadecimal digits.
    InvalidHexEncoding,
    /// A point line decodes to the wrong number of bytes for its group.
    ByteLengthMismatch,
    /// The curve library rejects the bytes as a compressed point, or a point
    /// that is to be paired lies outside the prime-order subgroup.
    InvalidPointEncoding,
    /// The setup declares no primary points.
    EmptyPointSet,
    /// The points cannot be reordered by bit reversal over the given width.
    PermutationWidthMismatch,
    /// The setup is in monomial form, not in Lagrange form.
    LagrangeFormInvalid,
}

} // verus!
