//! Capability-gated I/O: read and write tokens that cannot be forged, and
//! the I/O interface that takes them.
//!
//! 1. `read_line` can only be called by a holder of a `ReadCapability`;
//!    tokens are passed on, never copied nor forged (private constructor);
//! 2. `write_line` likewise with a `WriteCapability`;
//! 3. an I/O call without a token is a compile-time error (checked by the
//!    permission verification, not at run time).
use vstd::prelude::*;

verus! {

/// The token that allows reading (only this crate mints it).
pub struct ReadCapability {
    _private: (),
}

/// The token that allows writing (only this crate mints it).
pub struct WriteCapability {
    _private: (),
}

/// An error of capability-gated I/O.
#[derive(Debug, Clone, PartialEq, Eq)]
pub struct IOError {
    pub message: String,
}

/// I/O that demands a token for each operation.
pub trait CapabilityIO {
    /// Reads a line (needs the read token).
    fn read_line(cap: &mut ReadCapability) -> Result<String, IOError>;

    /// Writes a line (needs the write token).
    fn write_line(cap: &mut WriteCapability, s: &str) -> Result<(), IOError>;
}

/// Mints a read token (for the grant of a program that declared
/// `(require io read)`).
pub(crate) fn mint_read_token() -> ReadCapability {
    ReadCapability { _private: () }
}

/// Mints a write token (for the grant of a program that declared
/// `(require io write)`).
pub(crate) fn mint_write_token() -> WriteCapability {
    WriteCapability { _private: () }
}

} // verus!
