use vstd::prelude::*;

verus! {

/// Errors met while decoding a device tree blob.
#[derive(Debug, Clone, Copy, PartialEq, Eq, Structural)]
pub enum DeviceTreeError {
    /// The blob does not start with the device tree magic number.
    InvalidMagicNumber,
    /// The data are too short for a header or for a property's metadata.
    NotEnoughLength,
    /// An unknown structure token, or a node that does not start with one.
    InvalidToken,
    /// Bytes that cannot be read in the shape they must have.
    ParsingFailed,
    /// The memory that should hold the blob cannot be read.
    MemoryAccessFailed,
    /// `#address-cells` or `#size-cells` is needed but not in scope.
    MissingCellParameter,
}

/// Result of the decoding steps.
pub type Result<T> = core::result::Result<T, DeviceTreeError>;

} // verus!
