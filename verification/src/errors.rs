//! Recoverable failure taxonomy of the engine.
//!
//! Data-validation failures are returned as distinguishable values; callers
//! must not treat partially-processed buffers as valid on any of them.

use vstd::prelude::*;

verus! {

/// Every recoverable failure the engine can report.
#[derive(Clone, Copy, Debug, PartialEq, Eq, Structural)]
pub enum CryptoError {
    /// A padded buffer did not carry well-formed padding.
    InvalidPadding,
    /// A ciphertext handed to a block mode was not a multiple of the block size.
    MisalignedCiphertext,
    /// An authentication tag did not verify; no plaintext is released.
    AuthenticationFailure,
    /// A key was empty or too short to be split across the configured ciphers.
    InsufficientKeyMaterial,
    /// An audit event or timestamp contained the record delimiter or a line break.
    InvalidEventText,
    /// Appending to the audit store failed.
    LogWriteFailure,
    /// The entropy source could not produce the requested bytes.
    EntropyFailure,
    /// The backing cipher primitive refused the operation.
    CipherFailure,
}

} // verus!
