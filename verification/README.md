# snow (symmetric state)

The symmetric part of a Noise protocol handshake, verified with Verus: the running handshake
hash `h`, the chaining key `ck`, and the cipher state keyed from it (InitializeSymmetric,
MixKey, MixHash, MixKeyAndHash, EncryptAndHash, DecryptAndHash, Split), with snapshots for
rolling back a partially processed message.

Layout of `src/`:

- `symmetricstate.rs`: `SymmetricState`, `SymmetricStateData` and the `Checkpoint` snapshot
  (wiped on drop), the spec functions that model each operation on `SymmetricView`, and the
  laws: round trip (also between peers that agree only on what matters), rollback, refusals,
  the key flag over any sequence of operations, Split against split_raw, and two peers staying
  in sync over a whole handshake.
- `cipherstate.rs`: `CipherState`, a cipher with its key flag and nonce counter.
- `types.rs`: the `Hash` and `Cipher` interfaces of cryptographic providers, HMAC and the Noise
  HKDF over any `Hash`.
- `resolvers.rs`: SHA-256 (`sha2`) and ChaCha20-Poly1305 (`chacha20poly1305`) providers.
- `constants.rs`, `error.rs`, `utils.rs`.

The outside crates are reached through a few trusted wrappers: `zeroize` for wiping key
material, `sha2` for the SHA-256 digest, `chacha20poly1305` for sealing and opening.
