use vstd::prelude::*;

use crate::constants::{CIPHERKEYLEN, MAXBLOCKLEN, MAXHASHLEN, TAGLEN};
use crate::error::Error;

verus! {

/// The key block of HMAC: `key` padded with zero bytes to `block_len` bytes, every byte xored
/// with `pad`.
pub open spec fn hmac_pad(key: Seq<u8>, block_len: nat, pad: u8) -> Seq<u8> {
    Seq::new(block_len, |i: int| if i < key.len() { pad ^ key[i] } else { pad })
}

/// HMAC of `data` under `key` with the hash function `H` (RFC 2104).
pub open spec fn hmac_spec<H: crate::types::Hash>(key: Seq<u8>, data: Seq<u8>) -> Seq<u8> {
    H::spec_digest(
        hmac_pad(key, H::spec_block_len(), 0x5c) + H::spec_digest(
            hmac_pad(key, H::spec_block_len(), 0x36) + data,
        ),
    )
}

/// The temporary key of the Noise HKDF: HMAC of the input key material under the chaining key.
pub open spec fn hkdf_temp_key<H: crate::types::Hash>(chaining_key: Seq<u8>, ikm: Seq<u8>) -> Seq<
    u8,
> {
    hmac_spec::<H>(chaining_key, ikm)
}

/// First output of the Noise HKDF.
pub open spec fn hkdf_output1<H: crate::types::Hash>(chaining_key: Seq<u8>, ikm: Seq<u8>) -> Seq<
    u8,
> {
    hmac_spec::<H>(hkdf_temp_key::<H>(chaining_key, ikm), seq![1u8])
}

/// Second output of the Noise HKDF.
pub open spec fn hkdf_output2<H: crate::types::Hash>(chaining_key: Seq<u8>, ikm: Seq<u8>) -> Seq<
    u8,
> {
    hmac_spec::<H>(
        hkdf_temp_key::<H>(chaining_key, ikm),
        hkdf_output1::<H>(chaining_key, ikm) + seq![2u8],
    )
}

/// Third output of the Noise HKDF.
pub open spec fn hkdf_output3<H: crate::types::Hash>(chaining_key: Seq<u8>, ikm: Seq<u8>) -> Seq<
    u8,
> {
    hmac_spec::<H>(
        hkdf_temp_key::<H>(chaining_key, ikm),
        hkdf_output2::<H>(chaining_key, ikm) + seq![3u8],
    )
}

/// `out` after the first `n` bytes were overwritten with `written`.
pub open spec fn overwritten(before: Seq<u8>, written: Seq<u8>, n: nat) -> Seq<u8> {
    written + before.skip(n as int)
}

/// What was written leads the buffer.
pub proof fn lemma_overwritten_prefix(before: Seq<u8>, written: Seq<u8>, n: nat)
    requires
        written.len() == n,
    ensures
        overwritten(before, written, n).take(n as int) == written,
{
    assert(overwritten(before, written, n).take(n as int) =~= written);
}

/// HMAC and the HKDF outputs are digests, `hash_len` bytes long.
pub proof fn lemma_hkdf_lengths<H: crate::types::Hash>(chaining_key: Seq<u8>, ikm: Seq<u8>)
    ensures
        hkdf_temp_key::<H>(chaining_key, ikm).len() == H::spec_hash_len(),
        hkdf_output1::<H>(chaining_key, ikm).len() == H::spec_hash_len(),
        hkdf_output2::<H>(chaining_key, ikm).len() == H::spec_hash_len(),
        hkdf_output3::<H>(chaining_key, ikm).len() == H::spec_hash_len(),
{
    let bl = H::spec_block_len();
    let t = hkdf_temp_key::<H>(chaining_key, ikm);
    H::lemma_digest_len(hmac_pad(chaining_key, bl, 0x5c) + H::spec_digest(hmac_pad(chaining_key, bl, 0x36) + ikm));
    H::lemma_digest_len(hmac_pad(t, bl, 0x5c) + H::spec_digest(hmac_pad(t, bl, 0x36) + seq![1u8]));
    let o1 = hkdf_output1::<H>(chaining_key, ikm);
    H::lemma_digest_len(hmac_pad(t, bl, 0x5c) + H::spec_digest(hmac_pad(t, bl, 0x36) + (o1 + seq![2u8])));
    let o2 = hkdf_output2::<H>(chaining_key, ikm);
    H::lemma_digest_len(hmac_pad(t, bl, 0x5c) + H::spec_digest(hmac_pad(t, bl, 0x36) + (o2 + seq![3u8])));
}

/// A hash function usable in a Noise handshake.
///
/// An implementation absorbs input incrementally: `pending` is what was input since the last
/// `reset`, and `result` writes the digest of it.
pub trait Hash: Sized {
    /// Digest length in bytes.
    spec fn spec_hash_len() -> nat;

    /// Block length in bytes.
    spec fn spec_block_len() -> nat;

    /// The digest of a byte string.
    spec fn spec_digest(data: Seq<u8>) -> Seq<u8>;

    /// What was input since the last reset.
    spec fn pending(&self) -> Seq<u8>;

    /// A Noise hash: its digest holds a cipher key, and fits the buffers of this crate.
    proof fn lemma_lengths()
        ensures
            CIPHERKEYLEN <= Self::spec_hash_len() <= MAXHASHLEN,
            Self::spec_hash_len() <= Self::spec_block_len() <= MAXBLOCKLEN,
    ;

    /// Every digest is `hash_len` bytes long.
    proof fn lemma_digest_len(data: Seq<u8>)
        ensures
            Self::spec_digest(data).len() == Self::spec_hash_len(),
    ;

    /// The block length in bytes.
    fn block_len(&self) -> (n: usize)
        ensures
            n == Self::spec_block_len(),
            Self::spec_hash_len() <= n <= MAXBLOCKLEN,
    ;

    /// The digest length in bytes.
    fn hash_len(&self) -> (n: usize)
        ensures
            n == Self::spec_hash_len(),
            0 < n <= MAXHASHLEN,
            n <= Self::spec_block_len(),
    ;

    /// Forgets all input.
    fn reset(&mut self)
        ensures
            final(self).pending() == Seq::<u8>::empty(),
    ;

    /// Absorbs `data`.
    fn input(&mut self, data: &[u8])
        ensures
            final(self).pending() == old(self).pending() + data@,
    ;

    /// Writes the digest of what was input into the first `hash_len` bytes of `out`.
    fn result(&mut self, out: &mut [u8])
        requires
            old(out)@.len() >= Self::spec_hash_len(),
        ensures
            final(out)@ == overwritten(
                old(out)@,
                Self::spec_digest(old(self).pending()),
                Self::spec_hash_len(),
            ),
            Self::spec_digest(old(self).pending()).len() == Self::spec_hash_len(),
    ;
}

/// Writes HMAC of `data` under `key` into the first `hash_len` bytes of `out`.
pub fn hmac<H: crate::types::Hash>(hasher: &mut H, key: &[u8], data: &[u8], out: &mut [u8])
    requires
        key@.len() <= H::spec_block_len(),
        old(out)@.len() >= H::spec_hash_len(),
    ensures
        final(out)@ == overwritten(
            old(out)@,
            hmac_spec::<H>(key@, data@),
            H::spec_hash_len(),
        ),
        hmac_spec::<H>(key@, data@).len() == H::spec_hash_len(),
{
    let block_len = hasher.block_len();
    let hash_len = hasher.hash_len();
    let mut ipad = [0x36u8; 128];
    let mut opad = [0x5cu8; 128];
    let mut count: usize = 0;
    while count < key.len()
        invariant
            key@.len() <= block_len <= MAXBLOCKLEN,
            count <= key@.len(),
            forall|i: int|
                0 <= i < 128 ==> #[trigger] ipad@[i] == if i < count {
                    0x36u8 ^ key@[i]
                } else {
                    0x36u8
                },
            forall|i: int|
                0 <= i < 128 ==> #[trigger] opad@[i] == if i < count {
                    0x5cu8 ^ key@[i]
                } else {
                    0x5cu8
                },
        decreases key@.len() - count,
    {
        ipad[count] = 0x36u8 ^ key[count];
        opad[count] = 0x5cu8 ^ key[count];
        count = count + 1;
    }
    let ipad_block = &ipad.as_slice()[0..block_len];
    let opad_block = &opad.as_slice()[0..block_len];
    assert(ipad_block@ == hmac_pad(key@, H::spec_block_len(), 0x36));
    assert(opad_block@ == hmac_pad(key@, H::spec_block_len(), 0x5c));
    hasher.reset();
    hasher.input(ipad_block);
    hasher.input(data);
    assert(hasher.pending() =~= ipad_block@ + data@);
    let mut inner_output = [0u8; 64];
    hasher.result(&mut inner_output);
    let inner = &inner_output.as_slice()[0..hash_len];
    assert(inner@ =~= H::spec_digest(ipad_block@ + data@));
    hasher.reset();
    hasher.input(opad_block);
    hasher.input(inner);
    assert(hasher.pending() =~= opad_block@ + inner@);
    hasher.result(out);
}

/// The Noise HKDF: derives `outputs` (one to three) keys from `chaining_key` and
/// `input_key_material`, written into the first `hash_len` bytes of `out1`, `out2`, `out3`.
pub fn hkdf<H: crate::types::Hash>(
    hasher: &mut H,
    chaining_key: &[u8],
    input_key_material: &[u8],
    outputs: usize,
    out1: &mut [u8],
    out2: &mut [u8],
    out3: &mut [u8],
)
    requires
        1 <= outputs <= 3,
        chaining_key@.len() <= H::spec_block_len(),
        old(out1)@.len() >= H::spec_hash_len(),
        outputs >= 2 ==> old(out2)@.len() >= H::spec_hash_len(),
        outputs >= 3 ==> old(out3)@.len() >= H::spec_hash_len(),
    ensures
        final(out1)@ == overwritten(
            old(out1)@,
            hkdf_output1::<H>(chaining_key@, input_key_material@),
            H::spec_hash_len(),
        ),
        final(out2)@ == if outputs >= 2 {
            overwritten(
                old(out2)@,
                hkdf_output2::<H>(chaining_key@, input_key_material@),
                H::spec_hash_len(),
            )
        } else {
            old(out2)@
        },
        final(out3)@ == if outputs >= 3 {
            overwritten(
                old(out3)@,
                hkdf_output3::<H>(chaining_key@, input_key_material@),
                H::spec_hash_len(),
            )
        } else {
            old(out3)@
        },
        hkdf_output1::<H>(chaining_key@, input_key_material@).len()
            == H::spec_hash_len(),
        outputs >= 2 ==> hkdf_output2::<H>(chaining_key@, input_key_material@).len()
            == H::spec_hash_len(),
        outputs >= 3 ==> hkdf_output3::<H>(chaining_key@, input_key_material@).len()
            == H::spec_hash_len(),
{
    let hash_len = hasher.hash_len();
    let mut temp_key = [0u8; 64];
    hmac(hasher, chaining_key, input_key_material, &mut temp_key);
    let key = &temp_key.as_slice()[0..hash_len];
    assert(key@ == hkdf_temp_key::<H>(chaining_key@, input_key_material@));
    let one = [1u8];
    assert(one@ == seq![1u8]);
    hmac(hasher, key, one.as_slice(), out1);
    if outputs == 1 {
        return;
    }
    let mut in2 = [0u8; 65];
    let mut i: usize = 0;
    while i < hash_len
        invariant
            hash_len == H::spec_hash_len() <= MAXHASHLEN,
            i <= hash_len,
            out1@.len() >= hash_len,
            forall|j: int| 0 <= j < i ==> #[trigger] in2@[j] == out1@[j],
        decreases hash_len - i,
    {
        in2[i] = out1[i];
        i = i + 1;
    }
    in2[hash_len] = 2u8;
    let in2_slice = &in2.as_slice()[0..hash_len + 1];
    assert(in2_slice@ == hkdf_output1::<H>(chaining_key@, input_key_material@) + seq![2u8]);
    hmac(hasher, key, in2_slice, out2);
    if outputs == 2 {
        return;
    }
    let mut in3 = [0u8; 65];
    let mut i: usize = 0;
    while i < hash_len
        invariant
            hash_len == H::spec_hash_len() <= MAXHASHLEN,
            i <= hash_len,
            out2@.len() >= hash_len,
            forall|j: int| 0 <= j < i ==> #[trigger] in3@[j] == out2@[j],
        decreases hash_len - i,
    {
        in3[i] = out2[i];
        i = i + 1;
    }
    in3[hash_len] = 3u8;
    let in3_slice = &in3.as_slice()[0..hash_len + 1];
    assert(in3_slice@ == hkdf_output2::<H>(chaining_key@, input_key_material@) + seq![3u8]);
    hmac(hasher, key, in3_slice, out3);
}

/// An AEAD cipher usable in a Noise handshake, with a 64-bit nonce.
pub trait Cipher: Sized {
    /// The ciphertext (with its tag) of `plaintext` under `key`, `nonce` and `authtext`.
    spec fn spec_seal(key: Seq<u8>, nonce: u64, authtext: Seq<u8>, plaintext: Seq<u8>) -> Seq<u8>;

    /// The plaintext that `ciphertext` authenticates to, if it does.
    spec fn spec_open(key: Seq<u8>, nonce: u64, authtext: Seq<u8>, ciphertext: Seq<u8>) -> Option<
        Seq<u8>,
    >;

    /// Longest plaintext that the cipher accepts.
    spec fn spec_max_plaintext() -> nat;

    /// The key that was set.
    spec fn key(&self) -> Seq<u8>;

    /// Sets the key.
    fn set(&mut self, key: &[u8; CIPHERKEYLEN])
        ensures
            final(self).key() == key@,
    ;

    /// Encrypts `plaintext` into the first `plaintext.len() + TAGLEN` bytes of `out`, returning
    /// that length.
    fn encrypt(&self, nonce: u64, authtext: &[u8], plaintext: &[u8], out: &mut [u8]) -> (len:
        usize)
        requires
            plaintext@.len() <= Self::spec_max_plaintext(),
            old(out)@.len() >= plaintext@.len() + TAGLEN,
        ensures
            len == plaintext@.len() + TAGLEN,
            Self::spec_seal(self.key(), nonce, authtext@, plaintext@).len() == len,
            final(out)@ == overwritten(
                old(out)@,
                Self::spec_seal(self.key(), nonce, authtext@, plaintext@),
                len as nat,
            ),
            Self::spec_open(self.key(), nonce, authtext@, final(out)@.take(len as int)) == Some(
                plaintext@,
            ),
    ;

    /// Decrypts `ciphertext` into the first `ciphertext.len() - TAGLEN` bytes of `out`,
    /// returning that length, or fails if it does not authenticate; `out` is then left as it was.
    fn decrypt(&self, nonce: u64, authtext: &[u8], ciphertext: &[u8], out: &mut [u8]) -> (r:
        Result<usize, Error>)
        requires
            ciphertext@.len() >= TAGLEN,
            ciphertext@.len() <= Self::spec_max_plaintext() + TAGLEN,
            old(out)@.len() >= ciphertext@.len() - TAGLEN,
        ensures
            match Self::spec_open(self.key(), nonce, authtext@, ciphertext@) {
                Some(p) => {
                    &&& p.len() == ciphertext@.len() - TAGLEN
                    &&& r == Ok::<usize, Error>(p.len() as usize)
                    &&& final(out)@ == overwritten(old(out)@, p, p.len())
                },
                None => {
                    &&& r == Err::<usize, Error>(Error::Decrypt)
                    &&& final(out)@ == old(out)@
                },
            },
    ;
}

} // verus!
