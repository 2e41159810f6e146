//! Cryptographic providers: SHA-256 and ChaCha20-Poly1305.
use vstd::prelude::*;

use chacha20poly1305::aead::{Aead, Payload};
use chacha20poly1305::KeyInit;
use sha2::Digest;

use crate::constants::{CIPHERKEYLEN, TAGLEN};
use crate::error::Error;
use crate::types::Cipher;
use crate::utils::copy_into;

verus! {

/// The SHA-256 digest of a byte string, as `sha2` computes it.
pub uninterp spec fn sha256_digest(data: Seq<u8>) -> Seq<u8>;

/// Ciphertext with tag that `chacha20poly1305` produces for a key, a 12-byte nonce, associated
/// data and a plaintext.
pub uninterp spec fn chachapoly_seal(key: Seq<u8>, nonce: Seq<u8>, ad: Seq<u8>, pt: Seq<u8>) -> Seq<
    u8,
>;

/// The plaintext that `chacha20poly1305` recovers from a key, a 12-byte nonce, associated data
/// and a ciphertext with tag, or `None` where the tag does not authenticate.
pub uninterp spec fn chachapoly_open(key: Seq<u8>, nonce: Seq<u8>, ad: Seq<u8>, ct: Seq<u8>) -> Option<
    Seq<u8>,
>;

/// Longest plaintext (or ciphertext body) that `chacha20poly1305` processes without running out
/// of keystream: block 0 keys the MAC, which leaves `u32::MAX - 1` blocks of 64 bytes.
pub const CHACHAPOLY_MAX_PLAINTEXT: u64 = 274877906816;

/// `sha2::Sha256::digest`: the claim is only that the result is the SHA-256 digest of `data`
/// (the name `sha256_digest`), 32 bytes long by its type.
#[verifier::external_body]
fn sha256(data: &[u8]) -> (digest: [u8; 32])
    ensures
        digest@ == sha256_digest(data@),
{
    <sha2::Sha256 as Digest>::digest(data).into()
}

/// `ChaCha20Poly1305::new` followed by `Aead::encrypt`: for a plaintext within the keystream
/// (longer ones are left out: the crate panics on them) the result is `chachapoly_seal` of the
/// arguments, 16 bytes longer than the plaintext (the tag is appended), and opening it with the
/// same key, nonce and associated data gives the plaintext back (the correctness of an AEAD).
#[verifier::external_body]
fn chachapoly_encrypt(key: &[u8; CIPHERKEYLEN], nonce: &[u8; 12], ad: &[u8], pt: &[u8]) -> (r:
    Option<Vec<u8>>)
    requires
        pt@.len() <= CHACHAPOLY_MAX_PLAINTEXT,
    ensures
        r is Some,
        r matches Some(c) ==> {
            &&& c@ == chachapoly_seal(key@, nonce@, ad@, pt@)
            &&& c@.len() == pt@.len() + TAGLEN
            &&& chachapoly_open(key@, nonce@, ad@, c@) == Some(pt@)
        },
{
    let cipher = chacha20poly1305::ChaCha20Poly1305::new(key.into());
    cipher.encrypt(nonce.into(), Payload { msg: pt, aad: ad }).ok()
}

/// `ChaCha20Poly1305::new` followed by `Aead::decrypt`: the result is `chachapoly_open` of the
/// arguments; a recovered plaintext is 16 bytes shorter than the ciphertext (the tag is
/// stripped). Nothing is claimed of which ciphertexts authenticate beyond the name. A longer
/// ciphertext body than the keystream covers is left out: the crate panics on it once its tag
/// verifies.
#[verifier::external_body]
fn chachapoly_decrypt(key: &[u8; CIPHERKEYLEN], nonce: &[u8; 12], ad: &[u8], ct: &[u8]) -> (r:
    Option<Vec<u8>>)
    requires
        ct@.len() <= CHACHAPOLY_MAX_PLAINTEXT + TAGLEN,
    ensures
        r is Some <==> chachapoly_open(key@, nonce@, ad@, ct@) is Some,
        r matches Some(p) ==> {
            &&& chachapoly_open(key@, nonce@, ad@, ct@) == Some(p@)
            &&& p@.len() + TAGLEN == ct@.len()
        },
{
    let cipher = chacha20poly1305::ChaCha20Poly1305::new(key.into());
    cipher.decrypt(nonce.into(), Payload { msg: ct, aad: ad }).ok()
}

/// Byte `k` (0 being the least significant) of `n`.
pub open spec fn le_byte(n: u64, k: u64) -> u8 {
    ((n >> (8 * k)) & 0xff) as u8
}

/// The 12-byte ChaCha20-Poly1305 nonce of a Noise nonce: four zero bytes, then `n` in
/// little-endian order.
pub open spec fn chachapoly_nonce(n: u64) -> Seq<u8> {
    Seq::new(12, |i: int| if i < 4 { 0u8 } else { le_byte(n, (i - 4) as u64) })
}

fn encode_nonce(n: u64) -> (r: [u8; 12])
    ensures
        r@ == chachapoly_nonce(n),
{
    let mut r = [0u8; 12];
    let mut i: u64 = 0;
    while i < 8
        invariant
            i <= 8,
            forall|j: int|
                0 <= j < 12 ==> #[trigger] r@[j] == if 4 <= j < 4 + i {
                    le_byte(n, (j - 4) as u64)
                } else {
                    0u8
                },
        decreases 8 - i,
    {
        r[(4 + i) as usize] = ((n >> (8 * i)) & 0xff) as u8;
        i = i + 1;
    }
    assert(r@ =~= chachapoly_nonce(n));
    r
}

/// SHA-256, absorbing its input into a buffer and digesting it on `result`.
pub struct HashSHA256 {
    buffer: Vec<u8>,
}

impl HashSHA256 {
    /// A hasher with no input.
    pub fn new() -> (h: Self)
        ensures
            crate::types::Hash::pending(&h) == Seq::<u8>::empty(),
    {
        HashSHA256 { buffer: Vec::new() }
    }
}

impl crate::types::Hash for HashSHA256 {
    open spec fn spec_hash_len() -> nat {
        32
    }

    open spec fn spec_block_len() -> nat {
        64
    }

    open spec fn spec_digest(data: Seq<u8>) -> Seq<u8> {
        Seq::new(32, |i: int| sha256_digest(data)[i])
    }

    proof fn lemma_lengths() {
    }

    proof fn lemma_digest_len(data: Seq<u8>) {
    }

    closed spec fn pending(&self) -> Seq<u8> {
        self.buffer@
    }

    fn block_len(&self) -> (n: usize) {
        64
    }

    fn hash_len(&self) -> (n: usize) {
        32
    }

    fn reset(&mut self) {
        self.buffer.clear();
    }

    fn input(&mut self, data: &[u8]) {
        let mut i: usize = 0;
        while i < data.len()
            invariant
                i <= data@.len(),
                self.buffer@ == old(self).buffer@ + data@.take(i as int),
            decreases data@.len() - i,
        {
            self.buffer.push(data[i]);
            i = i + 1;
            assert(self.buffer@ =~= old(self).buffer@ + data@.take(i as int));
        }
        assert(data@.take(data@.len() as int) =~= data@);
    }

    fn result(&mut self, out: &mut [u8]) {
        let digest = sha256(self.buffer.as_slice());
        assert(digest@ =~= <HashSHA256 as crate::types::Hash>::spec_digest(self.buffer@));
        copy_into(digest.as_slice(), out);
    }
}

/// ChaCha20-Poly1305 with the Noise nonce encoding.
pub struct CipherChaChaPoly {
    key: [u8; CIPHERKEYLEN],
}

impl CipherChaChaPoly {
    /// A cipher holding the all-zero key.
    pub fn new() -> (c: Self)
        ensures
            Cipher::key(&c) == Seq::new(CIPHERKEYLEN as nat, |i: int| 0u8),
    {
        let c = CipherChaChaPoly { key: [0u8; 32] };
        assert(c.key@ =~= Seq::new(CIPHERKEYLEN as nat, |i: int| 0u8));
        c
    }
}

impl Cipher for CipherChaChaPoly {
    open spec fn spec_seal(key: Seq<u8>, nonce: u64, authtext: Seq<u8>, plaintext: Seq<u8>) -> Seq<
        u8,
    > {
        chachapoly_seal(key, chachapoly_nonce(nonce), authtext, plaintext)
    }

    open spec fn spec_open(key: Seq<u8>, nonce: u64, authtext: Seq<u8>, ciphertext: Seq<u8>) -> Option<
        Seq<u8>,
    > {
        chachapoly_open(key, chachapoly_nonce(nonce), authtext, ciphertext)
    }

    open spec fn spec_max_plaintext() -> nat {
        CHACHAPOLY_MAX_PLAINTEXT as nat
    }

    closed spec fn key(&self) -> Seq<u8> {
        self.key@
    }

    fn set(&mut self, key: &[u8; CIPHERKEYLEN]) {
        self.key = *key;
    }

    fn encrypt(&self, nonce: u64, authtext: &[u8], plaintext: &[u8], out: &mut [u8]) -> (len:
        usize) {
        let nonce_bytes = encode_nonce(nonce);
        match chachapoly_encrypt(&self.key, &nonce_bytes, authtext, plaintext) {
            Some(sealed) => {
                copy_into(sealed.as_slice(), out);
                assert(out@.take(sealed@.len() as int) =~= sealed@);
                sealed.len()
            },
            None => 0,
        }
    }

    fn decrypt(&self, nonce: u64, authtext: &[u8], ciphertext: &[u8], out: &mut [u8]) -> (r:
        Result<usize, Error>) {
        let nonce_bytes = encode_nonce(nonce);
        match chachapoly_decrypt(&self.key, &nonce_bytes, authtext, ciphertext) {
            Some(opened) => {
                copy_into(opened.as_slice(), out);
                Ok(opened.len())
            },
            None => Err(Error::Decrypt),
        }
    }
}

} // verus!
