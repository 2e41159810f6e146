use vstd::prelude::*;

verus! {

/// Problems with the state of a cipher.
#[derive(Debug, Clone, Copy, PartialEq, Eq, Structural)]
pub enum StateProblem {
    /// An encryption or decryption was asked of a cipher that holds no key.
    MissingKeyMaterial,
    /// The nonce counter reached its reserved maximum value.
    Exhausted,
}

/// Errors of the symmetric handshake layer.
#[derive(Debug, Clone, Copy, PartialEq, Eq, Structural)]
pub enum Error {
    /// The state of a cipher does not allow the operation.
    State(StateProblem),
    /// A ciphertext did not authenticate, or a buffer was too small to hold the result.
    Decrypt,
}

} // verus!
