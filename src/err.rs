use vstd::prelude::*;

verus! {

/// The ways a patch request can fail.
#[derive(Debug, Clone, Copy, PartialEq, Eq, Structural)]
pub enum HookError {
    /// A descriptor is malformed.
    InvalidParameter,
    /// The protection primitive refused a request: address, size, OS error code.
    VirtualProtect(usize, usize, u32),
    /// A numeric value is narrower than the requested write size.
    InvalidPatchSize(usize),
    /// Not enough room: what was reached, what was needed.
    BufferTooSmall(usize, usize),
    /// An instruction's operand runs past the end of the bytes it is read from.
    BufferConversionFailed,
}

/// Result of the hooking operations.
pub type Result<T> = core::result::Result<T, HookError>;

} // verus!
