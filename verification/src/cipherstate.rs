//! A cipher together with its key status and nonce counter.
use vstd::prelude::*;

use crate::constants::{CIPHERKEYLEN, TAGLEN};
use crate::error::{Error, StateProblem};
use crate::types::{overwritten, Cipher};

verus! {

/// What a cipher state holds: whether a key was set, the key, and the next nonce.
pub struct CipherView {
    pub has_key: bool,
    pub key: Seq<u8>,
    pub n: u64,
}

/// How a call that writes its result into the front of a buffer matches an outcome: on
/// success the returned length is that of the written bytes, which now lead the buffer; on
/// failure the error is returned and the buffer is left as it was.
pub open spec fn outcome_written(
    before: Seq<u8>,
    after: Seq<u8>,
    r: Result<usize, Error>,
    outcome: Result<Seq<u8>, Error>,
) -> bool {
    match outcome {
        Ok(bytes) => {
            &&& bytes.len() <= before.len()
            &&& r matches Ok(n) && n == bytes.len()
            &&& after == overwritten(before, bytes, bytes.len())
        },
        Err(e) => r == Err::<usize, Error>(e) && after == before,
    }
}

/// The state after the nonce `s.n` was used.
pub open spec fn nonce_used(s: CipherView) -> CipherView {
    CipherView { n: (s.n + 1) as u64, ..s }
}

/// Encryption with associated data: the state that follows and the ciphertext, or the error.
/// A cipher without a key, or whose nonce reached `u64::MAX` (reserved), refuses.
pub open spec fn spec_encrypt_ad<C: Cipher>(s: CipherView, authtext: Seq<u8>, plaintext: Seq<u8>) -> (
    CipherView,
    Result<Seq<u8>, Error>,
) {
    if !s.has_key {
        (s, Err(Error::State(StateProblem::MissingKeyMaterial)))
    } else if s.n == u64::MAX {
        (s, Err(Error::State(StateProblem::Exhausted)))
    } else {
        (nonce_used(s), Ok(C::spec_seal(s.key, s.n, authtext, plaintext)))
    }
}

/// Decryption with associated data into a buffer of `out_len` bytes: the state that follows and
/// the plaintext, or the error. A ciphertext shorter than a tag, or a buffer too small for the
/// plaintext, is refused first, then a missing key or an exhausted nonce; a ciphertext that does
/// not authenticate is refused without using up its nonce.
pub open spec fn spec_decrypt_ad<C: Cipher>(
    s: CipherView,
    authtext: Seq<u8>,
    ciphertext: Seq<u8>,
    out_len: nat,
) -> (CipherView, Result<Seq<u8>, Error>) {
    if ciphertext.len() < TAGLEN || out_len < ciphertext.len() - TAGLEN {
        (s, Err(Error::Decrypt))
    } else if !s.has_key {
        (s, Err(Error::State(StateProblem::MissingKeyMaterial)))
    } else if s.n == u64::MAX {
        (s, Err(Error::State(StateProblem::Exhausted)))
    } else {
        match C::spec_open(s.key, s.n, authtext, ciphertext) {
            Some(p) => (nonce_used(s), Ok(p)),
            None => (s, Err(Error::Decrypt)),
        }
    }
}

/// The cipher's ciphertext of `plaintext` is a tag longer, and opens to `plaintext`.
pub open spec fn seals_and_opens<C: Cipher>(key: Seq<u8>, nonce: u64, authtext: Seq<u8>, plaintext: Seq<u8>) -> bool {
    &&& C::spec_seal(key, nonce, authtext, plaintext).len() == plaintext.len() + TAGLEN
    &&& C::spec_open(key, nonce, authtext, C::spec_seal(key, nonce, authtext, plaintext)) == Some(
        plaintext,
    )
}

/// Whether encryption of `plaintext` reaches the cipher, which then needs room for the tag.
pub open spec fn encrypt_needs_room<C: Cipher>(s: CipherView, plaintext_len: nat, out_len: nat) -> bool {
    s.has_key && s.n != u64::MAX ==> plaintext_len <= C::spec_max_plaintext() && out_len
        >= plaintext_len + TAGLEN
}

/// Whether decryption of a ciphertext of `ciphertext_len` bytes into a buffer of `out_len` bytes,
/// where it reaches the cipher, stays within what the cipher processes.
pub open spec fn decrypt_within_limit<C: Cipher>(s: CipherView, ciphertext_len: nat, out_len: nat) -> bool {
    ciphertext_len >= TAGLEN && out_len >= ciphertext_len - TAGLEN && s.has_key && s.n != u64::MAX
        ==> ciphertext_len <= C::spec_max_plaintext() + TAGLEN
}

/// A cipher, whether it holds a key, and the nonce of the next message.
pub struct CipherState<C: Cipher> {
    cipher: C,
    n: u64,
    has_key: bool,
}

impl<C: Cipher> View for CipherState<C> {
    type V = CipherView;

    closed spec fn view(&self) -> CipherView {
        CipherView { has_key: self.has_key, key: self.cipher.key(), n: self.n }
    }
}

impl<C: Cipher> CipherState<C> {
    /// A cipher state without a key, at nonce 0.
    pub fn new(cipher: C) -> (cs: Self)
        ensures
            cs@ == (CipherView { has_key: false, key: cipher.key(), n: 0 }),
    {
        CipherState { cipher, n: 0, has_key: false }
    }

    /// Sets the key and the next nonce.
    pub fn set(&mut self, key: &[u8; CIPHERKEYLEN], n: u64)
        ensures
            final(self)@ == (CipherView { has_key: true, key: key@, n }),
    {
        self.cipher.set(key);
        self.n = n;
        self.has_key = true;
    }

    /// Whether a key was set.
    pub fn has_key(&self) -> (b: bool)
        ensures
            b == self@.has_key,
    {
        self.has_key
    }

    /// The nonce of the next message.
    pub fn nonce(&self) -> (n: u64)
        ensures
            n == self@.n,
    {
        self.n
    }

    /// Encrypts `plaintext` with `authtext` under the next nonce into the front of `out`.
    pub fn encrypt_ad(&mut self, authtext: &[u8], plaintext: &[u8], out: &mut [u8]) -> (r: Result<
        usize,
        Error,
    >)
        requires
            encrypt_needs_room::<C>(old(self)@, plaintext@.len(), old(out)@.len()),
        ensures
            final(self)@ == spec_encrypt_ad::<C>(old(self)@, authtext@, plaintext@).0,
            outcome_written(
                old(out)@,
                final(out)@,
                r,
                spec_encrypt_ad::<C>(old(self)@, authtext@, plaintext@).1,
            ),
            r is Ok ==> seals_and_opens::<C>(old(self)@.key, old(self)@.n, authtext@, plaintext@),
            r matches Ok(len) ==> len == plaintext@.len() + TAGLEN,
    {
        if !self.has_key {
            return Err(Error::State(StateProblem::MissingKeyMaterial));
        }
        if self.n == u64::MAX {
            return Err(Error::State(StateProblem::Exhausted));
        }
        let len = self.cipher.encrypt(self.n, authtext, plaintext, out);
        assert(out@.take(len as int) =~= C::spec_seal(
            self.cipher.key(),
            self.n,
            authtext@,
            plaintext@,
        ));
        self.n = self.n + 1;
        Ok(len)
    }

    /// Decrypts `ciphertext` with `authtext` under the next nonce into the front of `out`.
    pub fn decrypt_ad(&mut self, authtext: &[u8], ciphertext: &[u8], out: &mut [u8]) -> (r: Result<
        usize,
        Error,
    >)
        requires
            decrypt_within_limit::<C>(old(self)@, ciphertext@.len(), old(out)@.len()),
        ensures
            final(self)@ == spec_decrypt_ad::<C>(
                old(self)@,
                authtext@,
                ciphertext@,
                old(out)@.len(),
            ).0,
            outcome_written(
                old(out)@,
                final(out)@,
                r,
                spec_decrypt_ad::<C>(old(self)@, authtext@, ciphertext@, old(out)@.len()).1,
            ),
            r matches Ok(len) ==> len + TAGLEN == ciphertext@.len(),
    {
        if ciphertext.len() < TAGLEN || out.len() < ciphertext.len() - TAGLEN {
            return Err(Error::Decrypt);
        }
        if !self.has_key {
            return Err(Error::State(StateProblem::MissingKeyMaterial));
        }
        if self.n == u64::MAX {
            return Err(Error::State(StateProblem::Exhausted));
        }
        let r = self.cipher.decrypt(self.n, authtext, ciphertext, out);
        if r.is_ok() {
            self.n = self.n + 1;
        }
        r
    }
}

} // verus!
