//! The symmetric part of a Noise protocol handshake: the running handshake hash, the chaining
//! key, and the cipher state keyed from it, over swappable hash and cipher providers.
pub mod cipherstate;
pub mod constants;
pub mod error;
pub mod resolvers;
pub mod symmetricstate;
pub mod types;
pub mod utils;

pub use crate::cipherstate::CipherState;
pub use crate::error::{Error, StateProblem};
pub use crate::resolvers::{CipherChaChaPoly, HashSHA256};
pub use crate::symmetricstate::{Checkpoint, SymmetricState, SymmetricStateData};
