//! The error taxonomy of the crate.

use vstd::prelude::*;

verus! {

/// Why an identifier could not be parsed, a device could not be
/// resolved, or a reset did not succeed.
#[derive(Debug, Clone, Copy, PartialEq, Eq, Structural)]
pub enum UsbError {
    /// No identifier was supplied at all.
    InvalidInput,
    /// A numeric segment was present but not readable in the expected
    /// decimal or hexadecimal 16-bit format.
    InvalidData,
    /// No registry entry matched the identifier.
    NotFound,
    /// The reset control call came back with this non-zero status.
    Other(i32),
}

} // verus!
