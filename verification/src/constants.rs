use vstd::prelude::*;

verus! {

/// Length in bytes of a cipher key.
pub const CIPHERKEYLEN: usize = 32;

/// Length in bytes of an AEAD authentication tag.
pub const TAGLEN: usize = 16;

/// Largest digest length of any supported hash function.
pub const MAXHASHLEN: usize = 64;

/// Largest block length of any supported hash function.
pub const MAXBLOCKLEN: usize = 128;

} // verus!
