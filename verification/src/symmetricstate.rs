//! The symmetric state of a Noise handshake: the handshake hash `h`, the chaining key `ck`, and
//! the cipher state keyed from the chaining key.
use vstd::prelude::*;

use vstd::string::StringSliceAdditionalSpecFns;
use zeroize::Zeroize;

use crate::cipherstate::{
    decrypt_within_limit, encrypt_needs_room, seals_and_opens, outcome_written, spec_decrypt_ad, spec_encrypt_ad, CipherState, CipherView,
};
use crate::constants::{CIPHERKEYLEN, MAXHASHLEN, TAGLEN};
use crate::error::Error;
use crate::types::{
    hkdf, hkdf_output1, hkdf_output2, hkdf_output3, lemma_hkdf_lengths, lemma_overwritten_prefix,
    overwritten, Cipher,
};
use crate::utils::copy_into;

verus! {

/// `Zeroize::zeroize` on a byte array: claims that every byte of it is zero afterwards.
#[verifier::external_body]
fn wipe<const N: usize>(buf: &mut [u8; N])
    ensures
        final(buf)@ == zeros(N as nat),
    opens_invariants none
    no_unwind
{
    buf.zeroize();
}

/// `n` zero bytes.
pub open spec fn zeros(n: nat) -> Seq<u8> {
    Seq::new(n, |i: int| 0u8)
}

/// What a snapshot of the symmetric state holds.
pub struct StateView {
    pub h: Seq<u8>,
    pub ck: Seq<u8>,
    pub has_key: bool,
}

/// The handshake hash, the chaining key and whether a key was mixed in: the part of the symmetric
/// state that a handshake snapshots and rolls back.
#[derive(Clone, Copy)]
pub struct SymmetricStateData {
    pub h: [u8; MAXHASHLEN],
    pub ck: [u8; MAXHASHLEN],
    pub has_key: bool,
}

impl View for SymmetricStateData {
    type V = StateView;

    open spec fn view(&self) -> StateView {
        StateView { h: self.h@, ck: self.ck@, has_key: self.has_key }
    }
}

/// The snapshot with every byte zero and no key.
pub open spec fn cleared() -> StateView {
    StateView { h: zeros(MAXHASHLEN as nat), ck: zeros(MAXHASHLEN as nat), has_key: false }
}

impl Default for SymmetricStateData {
    fn default() -> (d: Self)
        ensures
            d@ == cleared(),
    {
        let d = SymmetricStateData { h: [0u8; 64], ck: [0u8; 64], has_key: false };
        assert(d.h@ =~= zeros(MAXHASHLEN as nat));
        assert(d.ck@ =~= zeros(MAXHASHLEN as nat));
        d
    }
}

impl SymmetricStateData {
    /// Wipes the chaining key and the hash, and forgets the key.
    pub fn zeroize(&mut self)
        ensures
            final(self)@ == cleared(),
        opens_invariants none
        no_unwind
    {
        wipe(&mut self.ck);
        wipe(&mut self.h);
        self.has_key = false;
    }
}

/// A snapshot taken by `checkpoint`. It holds the chaining key, so it is wiped when dropped.
pub struct Checkpoint {
    data: SymmetricStateData,
}

impl View for Checkpoint {
    type V = StateView;

    closed spec fn view(&self) -> StateView {
        self.data@
    }
}

impl Checkpoint {
    /// The snapshot's contents, as `restore` takes them.
    pub fn data(&self) -> (data: &SymmetricStateData)
        ensures
            data@ == self@,
    {
        &self.data
    }
}

impl core::ops::Deref for Checkpoint {
    type Target = SymmetricStateData;

    fn deref(&self) -> (data: &SymmetricStateData)
        ensures
            data@ == self@,
    {
        &self.data
    }
}

impl Drop for Checkpoint {
    /// Wipes the snapshot's chaining key and hash.
    fn drop(&mut self)
        ensures
            final(self)@ == cleared(),
        opens_invariants none
        no_unwind
    {
        self.data.zeroize();
    }
}

/// What a symmetric state holds: its snapshot part and its cipher state.
pub struct SymmetricView {
    pub inner: StateView,
    pub cipher: CipherView,
}

/// The handshake hash after mixing in `data`: the first `hash_len` bytes become
/// `HASH(h[..hash_len] || data)`.
pub open spec fn mixed_hash<H: crate::types::Hash>(h: Seq<u8>, data: Seq<u8>) -> Seq<u8> {
    overwritten(h, H::spec_digest(h.take(H::spec_hash_len() as int) + data), H::spec_hash_len())
}

/// The chaining key truncated to the digest length, as the HKDF takes it.
pub open spec fn ck_key<H: crate::types::Hash>(s: StateView) -> Seq<u8> {
    s.ck.take(H::spec_hash_len() as int)
}

/// A HKDF output as it stands in a zeroed `MAXHASHLEN` buffer.
pub open spec fn in_buffer<H: crate::types::Hash>(output: Seq<u8>) -> Seq<u8> {
    overwritten(zeros(MAXHASHLEN as nat), output, H::spec_hash_len())
}

/// A cipher key: the first `CIPHERKEYLEN` bytes of a HKDF output buffer.
pub open spec fn cipher_key<H: crate::types::Hash>(output: Seq<u8>) -> Seq<u8> {
    in_buffer::<H>(output).take(CIPHERKEYLEN as int)
}

/// A cipher state keyed with `key` at nonce 0.
pub open spec fn keyed(key: Seq<u8>) -> CipherView {
    CipherView { has_key: true, key, n: 0 }
}

/// The handshake hash that InitializeSymmetric starts from: a protocol name no longer than the
/// digest, padded with zero bytes, or else the digest of the name; the rest of the buffer is zero.
pub open spec fn initial_hash<H: crate::types::Hash>(name: Seq<u8>) -> Seq<u8> {
    if name.len() <= H::spec_hash_len() {
        overwritten(zeros(MAXHASHLEN as nat), name, name.len())
    } else {
        overwritten(zeros(MAXHASHLEN as nat), H::spec_digest(name), H::spec_hash_len())
    }
}

/// The handshake hash: the first `hash_len` bytes of `h`.
pub open spec fn hash_ad<H: crate::types::Hash>(s: SymmetricView) -> Seq<u8> {
    s.inner.h.take(H::spec_hash_len() as int)
}

/// The handshake hash after MixHash is the digest of the handshake hash before and the data.
pub proof fn lemma_mixed_hash_prefix<H: crate::types::Hash>(h: Seq<u8>, data: Seq<u8>)
    ensures
        mixed_hash::<H>(h, data).take(H::spec_hash_len() as int) == H::spec_digest(
            h.take(H::spec_hash_len() as int) + data,
        ),
{
    H::lemma_digest_len(h.take(H::spec_hash_len() as int) + data);
    lemma_overwritten_prefix(
        h,
        H::spec_digest(h.take(H::spec_hash_len() as int) + data),
        H::spec_hash_len(),
    );
}

/// A cipher key taken from a HKDF output is the output's first `CIPHERKEYLEN` bytes.
pub proof fn lemma_cipher_key<H: crate::types::Hash>(output: Seq<u8>)
    requires
        output.len() == H::spec_hash_len(),
    ensures
        cipher_key::<H>(output) == output.take(CIPHERKEYLEN as int),
{
    H::lemma_lengths();
    assert(cipher_key::<H>(output) =~= output.take(CIPHERKEYLEN as int));
}

/// The chaining key after a HKDF leads with the first output.
pub proof fn lemma_in_buffer_prefix<H: crate::types::Hash>(output: Seq<u8>)
    requires
        output.len() == H::spec_hash_len(),
    ensures
        in_buffer::<H>(output).take(H::spec_hash_len() as int) == output,
{
    lemma_overwritten_prefix(zeros(MAXHASHLEN as nat), output, H::spec_hash_len());
}

/// The handshake hash that InitializeSymmetric starts from: the name padded with zero bytes to
/// `hash_len`, or the digest of a longer name.
pub open spec fn initial_handshake_hash<H: crate::types::Hash>(name: Seq<u8>) -> Seq<u8> {
    if name.len() <= H::spec_hash_len() {
        name + zeros((H::spec_hash_len() - name.len()) as nat)
    } else {
        H::spec_digest(name)
    }
}

/// InitializeSymmetric: `h` starts from the protocol name, `ck = h`, and no key.
pub open spec fn spec_initialize<H: crate::types::Hash>(s: SymmetricView, name: Seq<u8>) -> SymmetricView {
    let h = initial_hash::<H>(name);
    SymmetricView { inner: StateView { h, ck: h, has_key: false }, cipher: s.cipher }
}

/// MixHash: only `h` changes.
pub open spec fn spec_mix_hash<H: crate::types::Hash>(s: SymmetricView, data: Seq<u8>) -> SymmetricView {
    SymmetricView { inner: StateView { h: mixed_hash::<H>(s.inner.h, data), ..s.inner }, ..s }
}

/// MixKey: `(ck, k) = HKDF(ck, data, 2)`; the cipher is keyed with `k` at nonce 0 and a key is
/// recorded.
pub open spec fn spec_mix_key<H: crate::types::Hash>(s: SymmetricView, data: Seq<u8>) -> SymmetricView {
    SymmetricView {
        inner: StateView {
            h: s.inner.h,
            ck: in_buffer::<H>(hkdf_output1::<H>(ck_key::<H>(s.inner), data)),
            has_key: true,
        },
        cipher: keyed(cipher_key::<H>(hkdf_output2::<H>(ck_key::<H>(s.inner), data))),
    }
}

/// MixKeyAndHash: `(ck, t, k) = HKDF(ck, data, 3)`; `t` is mixed into `h`, the cipher is keyed
/// with `k` at nonce 0 and a key is recorded.
pub open spec fn spec_mix_key_and_hash<H: crate::types::Hash>(s: SymmetricView, data: Seq<u8>) -> SymmetricView {
    SymmetricView {
        inner: StateView {
            h: mixed_hash::<H>(s.inner.h, hkdf_output2::<H>(ck_key::<H>(s.inner), data)),
            ck: in_buffer::<H>(hkdf_output1::<H>(ck_key::<H>(s.inner), data)),
            has_key: true,
        },
        cipher: keyed(cipher_key::<H>(hkdf_output3::<H>(ck_key::<H>(s.inner), data))),
    }
}

/// EncryptAndHash: with a key, the plaintext is encrypted with `h` as associated data,
/// otherwise it passes unchanged; what is sent is mixed into `h`. A refusal of the cipher
/// changes nothing.
pub open spec fn spec_encrypt_and_mix_hash<C: Cipher, H: crate::types::Hash>(
    s: SymmetricView,
    plaintext: Seq<u8>,
) -> (SymmetricView, Result<Seq<u8>, Error>) {
    if s.inner.has_key {
        let (cs, r) = spec_encrypt_ad::<C>(
            s.cipher,
            s.inner.h.take(H::spec_hash_len() as int),
            plaintext,
        );
        match r {
            Ok(ct) => (
                SymmetricView {
                    inner: StateView { h: mixed_hash::<H>(s.inner.h, ct), ..s.inner },
                    cipher: cs,
                },
                Ok(ct),
            ),
            Err(e) => (SymmetricView { cipher: cs, ..s }, Err(e)),
        }
    } else {
        (spec_mix_hash::<H>(s, plaintext), Ok(plaintext))
    }
}

/// DecryptAndHash into a buffer of `out_len` bytes: with a key, the data is decrypted with `h`
/// as associated data, otherwise it passes unchanged (if the buffer holds it); on success the
/// received data is mixed into `h`. On failure nothing changes.
pub open spec fn spec_decrypt_and_mix_hash<C: Cipher, H: crate::types::Hash>(
    s: SymmetricView,
    data: Seq<u8>,
    out_len: nat,
) -> (SymmetricView, Result<Seq<u8>, Error>) {
    if s.inner.has_key {
        let (cs, r) = spec_decrypt_ad::<C>(
            s.cipher,
            s.inner.h.take(H::spec_hash_len() as int),
            data,
            out_len,
        );
        match r {
            Ok(p) => (
                SymmetricView {
                    inner: StateView { h: mixed_hash::<H>(s.inner.h, data), ..s.inner },
                    cipher: cs,
                },
                Ok(p),
            ),
            Err(e) => (SymmetricView { cipher: cs, ..s }, Err(e)),
        }
    } else if out_len < data.len() {
        (s, Err(Error::Decrypt))
    } else {
        (spec_mix_hash::<H>(s, data), Ok(data))
    }
}

/// Whether `encrypt_and_mix_hash` has room in a buffer of `out_len` bytes: the plaintext, and
/// the tag where the cipher is reached.
pub open spec fn encrypt_has_room<C: Cipher>(s: SymmetricView, plaintext_len: nat, out_len: nat) -> bool {
    if s.inner.has_key {
        encrypt_needs_room::<C>(s.cipher, plaintext_len, out_len)
    } else {
        out_len >= plaintext_len
    }
}

/// The two transport keys of Split: the first `CIPHERKEYLEN` bytes of the outputs of
/// `HKDF(ck, "", 2)`.
pub open spec fn split_keys<H: crate::types::Hash>(s: StateView) -> (Seq<u8>, Seq<u8>) {
    (
        hkdf_output1::<H>(ck_key::<H>(s), Seq::empty()).take(CIPHERKEYLEN as int),
        hkdf_output2::<H>(ck_key::<H>(s), Seq::empty()).take(CIPHERKEYLEN as int),
    )
}

/// The snapshot that `checkpoint` takes.
pub open spec fn spec_checkpoint(s: SymmetricView) -> StateView {
    s.inner
}

/// The state after `restore` of a snapshot: the snapshot part comes back, the cipher state
/// stays.
pub open spec fn spec_restore(s: SymmetricView, snapshot: StateView) -> SymmetricView {
    SymmetricView { inner: snapshot, cipher: s.cipher }
}

/// Rollback: restoring a checkpoint brings back the hash, the chaining key and the key flag as
/// they were when it was taken, whatever happened in between, and keeps the current cipher
/// state.
pub proof fn law_restore_undoes_checkpoint(earlier: SymmetricView, later: SymmetricView)
    ensures
        spec_restore(later, spec_checkpoint(earlier)).inner == earlier.inner,
        spec_restore(later, spec_checkpoint(earlier)).cipher == later.cipher,
{
}

/// A refused message changes nothing: neither the hash, the chaining key and the key flag, nor
/// the cipher's nonce.
pub proof fn law_refusal_keeps_hash<C: Cipher, H: crate::types::Hash>(
    s: SymmetricView,
    message: Seq<u8>,
    out_len: nat,
)
    ensures
        spec_encrypt_and_mix_hash::<C, H>(s, message).1 is Err ==> spec_encrypt_and_mix_hash::<
            C,
            H,
        >(s, message).0 == s,
        spec_decrypt_and_mix_hash::<C, H>(s, message, out_len).1 is Err
            ==> spec_decrypt_and_mix_hash::<C, H>(s, message, out_len).0 == s,
{
}

/// Round trip: what `encrypt_and_mix_hash` sends from a state, `decrypt_and_mix_hash` receives
/// from an equal state (into a buffer that holds the plaintext) as the same plaintext, and both
/// sides end in the same state. Before a key is mixed in this holds of any cipher; after, of a
/// cipher that opens what it seals.
pub proof fn law_encrypt_decrypt_round_trip<C: Cipher, H: crate::types::Hash>(
    s: SymmetricView,
    plaintext: Seq<u8>,
    out_len: nat,
)
    requires
        spec_encrypt_and_mix_hash::<C, H>(s, plaintext).1 is Ok,
        out_len >= plaintext.len(),
        s.inner.has_key ==> seals_and_opens::<C>(
            s.cipher.key,
            s.cipher.n,
            s.inner.h.take(H::spec_hash_len() as int),
            plaintext,
        ),
    ensures
        spec_decrypt_and_mix_hash::<C, H>(
            s,
            spec_encrypt_and_mix_hash::<C, H>(s, plaintext).1->Ok_0,
            out_len,
        ) == (spec_encrypt_and_mix_hash::<C, H>(s, plaintext).0, Ok::<Seq<u8>, Error>(plaintext)),
{
}

/// The handshake hash after MixHash depends only on the handshake hash before and the data: no
/// other byte of `h`, and nothing left in the hasher, reaches it.
pub proof fn law_mix_hash_depends_on_handshake_hash<H: crate::types::Hash>(
    s1: SymmetricView,
    s2: SymmetricView,
    data: Seq<u8>,
)
    requires
        hash_ad::<H>(s1) == hash_ad::<H>(s2),
    ensures
        hash_ad::<H>(spec_mix_hash::<H>(s1, data)) == hash_ad::<H>(spec_mix_hash::<H>(s2, data)),
        hash_ad::<H>(spec_mix_hash::<H>(s1, data)) == H::spec_digest(hash_ad::<H>(s1) + data),
{
    lemma_mixed_hash_prefix::<H>(s1.inner.h, data);
    lemma_mixed_hash_prefix::<H>(s2.inner.h, data);
}

/// Round trip between peers: a receiver whose handshake hash and key flag equal the sender's,
/// and whose cipher state equals the sender's where a key is mixed in, recovers what the sender
/// sends (into a buffer that holds it), and both sides end with the same handshake hash and the
/// same cipher state. After a key is mixed in this needs a cipher that opens what it seals.
pub proof fn law_round_trip_between_peers<C: Cipher, H: crate::types::Hash>(
    sender: SymmetricView,
    receiver: SymmetricView,
    plaintext: Seq<u8>,
    out_len: nat,
)
    requires
        hash_ad::<H>(sender) == hash_ad::<H>(receiver),
        sender.inner.has_key == receiver.inner.has_key,
        sender.inner.has_key ==> sender.cipher == receiver.cipher,
        spec_encrypt_and_mix_hash::<C, H>(sender, plaintext).1 is Ok,
        out_len >= plaintext.len(),
        sender.inner.has_key ==> seals_and_opens::<C>(
            sender.cipher.key,
            sender.cipher.n,
            hash_ad::<H>(sender),
            plaintext,
        ),
    ensures
        ({
            let (sent, message) = spec_encrypt_and_mix_hash::<C, H>(sender, plaintext);
            let (received, payload) = spec_decrypt_and_mix_hash::<C, H>(
                receiver,
                message->Ok_0,
                out_len,
            );
            &&& payload == Ok::<Seq<u8>, Error>(plaintext)
            &&& hash_ad::<H>(received) == hash_ad::<H>(sent)
            &&& received.inner.has_key == sent.inner.has_key
            &&& sender.inner.has_key ==> received.cipher == sent.cipher
        }),
{
    let ct = spec_encrypt_and_mix_hash::<C, H>(sender, plaintext).1->Ok_0;
    lemma_mixed_hash_prefix::<H>(sender.inner.h, ct);
    lemma_mixed_hash_prefix::<H>(receiver.inner.h, ct);
}

/// InitializeSymmetric, over all protocol names: the handshake hash is the name padded with
/// zero bytes to the digest length, or the digest of a longer name; the chaining key equals the
/// whole hash buffer; no key is recorded; the cipher state is untouched.
pub proof fn law_initialize<H: crate::types::Hash>(s: SymmetricView, name: Seq<u8>)
    ensures
        hash_ad::<H>(spec_initialize::<H>(s, name)) == initial_handshake_hash::<H>(name),
        spec_initialize::<H>(s, name).inner.ck == spec_initialize::<H>(s, name).inner.h,
        spec_initialize::<H>(s, name).inner.ck.take(H::spec_hash_len() as int)
            == initial_handshake_hash::<H>(name),
        !spec_initialize::<H>(s, name).inner.has_key,
        spec_initialize::<H>(s, name).cipher == s.cipher,
{
    H::lemma_lengths();
    H::lemma_digest_len(name);
    assert(hash_ad::<H>(spec_initialize::<H>(s, name)) =~= initial_handshake_hash::<H>(name));
}

/// MixHash, over all states and data: the handshake hash becomes `HASH(h || data)`; the chaining
/// key, the key flag and the cipher state are untouched.
pub proof fn law_mix_hash<H: crate::types::Hash>(s: SymmetricView, data: Seq<u8>)
    ensures
        hash_ad::<H>(spec_mix_hash::<H>(s, data)) == H::spec_digest(hash_ad::<H>(s) + data),
        spec_mix_hash::<H>(s, data).inner.ck == s.inner.ck,
        spec_mix_hash::<H>(s, data).inner.has_key == s.inner.has_key,
        spec_mix_hash::<H>(s, data).cipher == s.cipher,
{
    lemma_mixed_hash_prefix::<H>(s.inner.h, data);
}

/// MixKey, over all states and key material: the chaining key leads with the first HKDF output,
/// the cipher holds the first `CIPHERKEYLEN` bytes of the second at nonce 0 whatever its nonce
/// was, a key is recorded, and the handshake hash is untouched.
pub proof fn law_mix_key<H: crate::types::Hash>(s: SymmetricView, data: Seq<u8>)
    ensures
        spec_mix_key::<H>(s, data).inner.ck.take(H::spec_hash_len() as int) == hkdf_output1::<H>(
            ck_key::<H>(s.inner),
            data,
        ),
        spec_mix_key::<H>(s, data).cipher.key == hkdf_output2::<H>(ck_key::<H>(s.inner), data).take(
            CIPHERKEYLEN as int,
        ),
        spec_mix_key::<H>(s, data).cipher.n == 0,
        spec_mix_key::<H>(s, data).cipher.has_key,
        spec_mix_key::<H>(s, data).inner.has_key,
        spec_mix_key::<H>(s, data).inner.h == s.inner.h,
{
    lemma_hkdf_lengths::<H>(ck_key::<H>(s.inner), data);
    lemma_in_buffer_prefix::<H>(hkdf_output1::<H>(ck_key::<H>(s.inner), data));
    lemma_cipher_key::<H>(hkdf_output2::<H>(ck_key::<H>(s.inner), data));
}

/// MixKeyAndHash, over all states and key material: the chaining key leads with the first HKDF
/// output, the handshake hash becomes `HASH(h || second output)`, the cipher holds the first
/// `CIPHERKEYLEN` bytes of the third at nonce 0 whatever its nonce was, and a key is recorded.
pub proof fn law_mix_key_and_hash<H: crate::types::Hash>(s: SymmetricView, data: Seq<u8>)
    ensures
        spec_mix_key_and_hash::<H>(s, data).inner.ck.take(H::spec_hash_len() as int)
            == hkdf_output1::<H>(ck_key::<H>(s.inner), data),
        hash_ad::<H>(spec_mix_key_and_hash::<H>(s, data)) == H::spec_digest(
            hash_ad::<H>(s) + hkdf_output2::<H>(ck_key::<H>(s.inner), data),
        ),
        spec_mix_key_and_hash::<H>(s, data).cipher.key == hkdf_output3::<H>(
            ck_key::<H>(s.inner),
            data,
        ).take(CIPHERKEYLEN as int),
        spec_mix_key_and_hash::<H>(s, data).cipher.n == 0,
        spec_mix_key_and_hash::<H>(s, data).cipher.has_key,
        spec_mix_key_and_hash::<H>(s, data).inner.has_key,
{
    lemma_hkdf_lengths::<H>(ck_key::<H>(s.inner), data);
    lemma_in_buffer_prefix::<H>(hkdf_output1::<H>(ck_key::<H>(s.inner), data));
    lemma_cipher_key::<H>(hkdf_output3::<H>(ck_key::<H>(s.inner), data));
    lemma_mixed_hash_prefix::<H>(s.inner.h, hkdf_output2::<H>(ck_key::<H>(s.inner), data));
}

/// EncryptAndHash, over all states and plaintexts (the empty one included): what is sent is the
/// cipher's sealing of the plaintext under the current key and nonce with the handshake hash as
/// associated data (or the plaintext itself before any key), the handshake hash becomes
/// `HASH(h || sent)`, the nonce advances by one where the cipher was used, and the chaining key
/// and the key flag are untouched.
pub proof fn law_encrypt_and_mix_hash<C: Cipher, H: crate::types::Hash>(s: SymmetricView, plaintext: Seq<u8>)
    ensures
        spec_encrypt_and_mix_hash::<C, H>(s, plaintext).1 matches Ok(sent) ==> {
            let after = spec_encrypt_and_mix_hash::<C, H>(s, plaintext).0;
            &&& hash_ad::<H>(after) == H::spec_digest(hash_ad::<H>(s) + sent)
            &&& after.inner.ck == s.inner.ck
            &&& after.inner.has_key == s.inner.has_key
            &&& s.inner.has_key ==> sent == C::spec_seal(
                s.cipher.key,
                s.cipher.n,
                hash_ad::<H>(s),
                plaintext,
            )
            &&& s.inner.has_key ==> after.cipher.n == s.cipher.n + 1 && after.cipher.key
                == s.cipher.key && after.cipher.has_key
            &&& !s.inner.has_key ==> sent == plaintext && after.cipher == s.cipher
        },
{
    if spec_encrypt_and_mix_hash::<C, H>(s, plaintext).1 is Ok {
        lemma_mixed_hash_prefix::<H>(s.inner.h, spec_encrypt_and_mix_hash::<C, H>(s, plaintext).1->Ok_0);
    }
}

/// DecryptAndHash, over all states and received data (the bare tag of an empty payload
/// included): on success the payload is what the cipher opens the data to under the current key
/// and nonce with the handshake hash as associated data (or the data itself before any key), the
/// handshake hash becomes `HASH(h || data)`, the nonce advances by one where the cipher was used,
/// and the chaining key and the key flag are untouched.
pub proof fn law_decrypt_and_mix_hash<C: Cipher, H: crate::types::Hash>(
    s: SymmetricView,
    data: Seq<u8>,
    out_len: nat,
)
    ensures
        spec_decrypt_and_mix_hash::<C, H>(s, data, out_len).1 matches Ok(payload) ==> {
            let after = spec_decrypt_and_mix_hash::<C, H>(s, data, out_len).0;
            &&& hash_ad::<H>(after) == H::spec_digest(hash_ad::<H>(s) + data)
            &&& after.inner.ck == s.inner.ck
            &&& after.inner.has_key == s.inner.has_key
            &&& s.inner.has_key ==> C::spec_open(s.cipher.key, s.cipher.n, hash_ad::<H>(s), data)
                == Some(payload)
            &&& s.inner.has_key ==> after.cipher.n == s.cipher.n + 1 && after.cipher.key
                == s.cipher.key && after.cipher.has_key
            &&& !s.inner.has_key ==> payload == data && after.cipher == s.cipher
        },
{
    lemma_mixed_hash_prefix::<H>(s.inner.h, data);
}

/// An operation on a symmetric state, as a caller makes it.
pub enum Operation {
    Initialize(Seq<u8>),
    MixKey(Seq<u8>),
    MixHash(Seq<u8>),
    MixKeyAndHash(Seq<u8>),
    EncryptAndMixHash(Seq<u8>),
    /// The received data and the length of the buffer for the payload.
    DecryptAndMixHash(Seq<u8>, nat),
    Split,
    SplitRaw,
    Checkpoint,
    HandshakeHash,
    HasKey,
}

/// The state after one operation, successful or not.
pub open spec fn apply<C: Cipher, H: crate::types::Hash>(s: SymmetricView, op: Operation) -> SymmetricView {
    match op {
        Operation::Initialize(name) => spec_initialize::<H>(s, name),
        Operation::MixKey(data) => spec_mix_key::<H>(s, data),
        Operation::MixHash(data) => spec_mix_hash::<H>(s, data),
        Operation::MixKeyAndHash(data) => spec_mix_key_and_hash::<H>(s, data),
        Operation::EncryptAndMixHash(plaintext) => spec_encrypt_and_mix_hash::<C, H>(s, plaintext).0,
        Operation::DecryptAndMixHash(data, out_len) => spec_decrypt_and_mix_hash::<C, H>(
            s,
            data,
            out_len,
        ).0,
        _ => s,
    }
}

/// The state after a sequence of operations.
pub open spec fn run<C: Cipher, H: crate::types::Hash>(s: SymmetricView, ops: Seq<Operation>) -> SymmetricView
    decreases ops.len(),
{
    if ops.len() == 0 {
        s
    } else {
        apply::<C, H>(run::<C, H>(s, ops.drop_last()), ops.last())
    }
}

/// Whether a key is recorded after `ops`: set by the last MixKey or MixKeyAndHash after the last
/// Initialize, cleared by the last Initialize, otherwise as it was.
pub open spec fn key_flag_after(initial: bool, ops: Seq<Operation>) -> bool
    decreases ops.len(),
{
    if ops.len() == 0 {
        initial
    } else {
        match ops.last() {
            Operation::Initialize(_) => false,
            Operation::MixKey(_) => true,
            Operation::MixKeyAndHash(_) => true,
            _ => key_flag_after(initial, ops.drop_last()),
        }
    }
}

/// The key flag over any sequence of operations: only Initialize clears it, only MixKey and
/// MixKeyAndHash set it; encryption, decryption (whether or not they succeed), Split and the
/// readers leave it.
pub proof fn law_key_flag<C: Cipher, H: crate::types::Hash>(s: SymmetricView, ops: Seq<Operation>)
    ensures
        run::<C, H>(s, ops).inner.has_key == key_flag_after(s.inner.has_key, ops),
    decreases ops.len(),
{
    if ops.len() > 0 {
        law_key_flag::<C, H>(s, ops.drop_last());
    }
}

/// Split is split_raw followed by truncation: each transport key is the first `CIPHERKEYLEN`
/// bytes that split_raw writes into a buffer, whatever the buffer held.
pub proof fn law_split_is_split_raw_truncated<H: crate::types::Hash>(
    s: StateView,
    buf1: Seq<u8>,
    buf2: Seq<u8>,
)
    requires
        buf1.len() >= H::spec_hash_len(),
        buf2.len() >= H::spec_hash_len(),
    ensures
        split_keys::<H>(s).0 == overwritten(
            buf1,
            hkdf_output1::<H>(ck_key::<H>(s), Seq::empty()),
            H::spec_hash_len(),
        ).take(CIPHERKEYLEN as int),
        split_keys::<H>(s).1 == overwritten(
            buf2,
            hkdf_output2::<H>(ck_key::<H>(s), Seq::empty()),
            H::spec_hash_len(),
        ).take(CIPHERKEYLEN as int),
{
    H::lemma_lengths();
    lemma_hkdf_lengths::<H>(ck_key::<H>(s), Seq::empty());
    assert(split_keys::<H>(s).0 =~= overwritten(
        buf1,
        hkdf_output1::<H>(ck_key::<H>(s), Seq::empty()),
        H::spec_hash_len(),
    ).take(CIPHERKEYLEN as int));
    assert(split_keys::<H>(s).1 =~= overwritten(
        buf2,
        hkdf_output2::<H>(ck_key::<H>(s), Seq::empty()),
        H::spec_hash_len(),
    ).take(CIPHERKEYLEN as int));
}

/// split_raw writes the same `hash_len` leading bytes into any buffers: they depend on the
/// chaining key alone, and split_raw leaves the state as it was, so calling it again writes them
/// again.
pub proof fn law_split_raw_repeatable<H: crate::types::Hash>(
    s: StateView,
    first: Seq<u8>,
    second: Seq<u8>,
)
    requires
        first.len() >= H::spec_hash_len(),
        second.len() >= H::spec_hash_len(),
    ensures
        overwritten(first, hkdf_output1::<H>(ck_key::<H>(s), Seq::empty()), H::spec_hash_len()).take(
            H::spec_hash_len() as int,
        ) == overwritten(
            second,
            hkdf_output1::<H>(ck_key::<H>(s), Seq::empty()),
            H::spec_hash_len(),
        ).take(H::spec_hash_len() as int),
        overwritten(first, hkdf_output2::<H>(ck_key::<H>(s), Seq::empty()), H::spec_hash_len()).take(
            H::spec_hash_len() as int,
        ) == overwritten(
            second,
            hkdf_output2::<H>(ck_key::<H>(s), Seq::empty()),
            H::spec_hash_len(),
        ).take(H::spec_hash_len() as int),
{
    let o1 = hkdf_output1::<H>(ck_key::<H>(s), Seq::empty());
    let o2 = hkdf_output2::<H>(ck_key::<H>(s), Seq::empty());
    lemma_hkdf_lengths::<H>(ck_key::<H>(s), Seq::empty());
    lemma_overwritten_prefix(first, o1, H::spec_hash_len());
    lemma_overwritten_prefix(second, o1, H::spec_hash_len());
    lemma_overwritten_prefix(first, o2, H::spec_hash_len());
    lemma_overwritten_prefix(second, o2, H::spec_hash_len());
}

/// A step of a handshake as both peers take it: the same derivation on both sides, or a
/// transport message that one side encrypts and the other decrypts.
pub enum HandshakeStep {
    Initialize(Seq<u8>),
    MixKey(Seq<u8>),
    MixHash(Seq<u8>),
    MixKeyAndHash(Seq<u8>),
    Transport(Seq<u8>),
}

/// Both peers' states after one step. A message that the sender's cipher refuses is not sent.
pub open spec fn pair_step<C: Cipher, H: crate::types::Hash>(
    sender: SymmetricView,
    receiver: SymmetricView,
    step: HandshakeStep,
) -> (SymmetricView, SymmetricView) {
    match step {
        HandshakeStep::Initialize(name) => (
            spec_initialize::<H>(sender, name),
            spec_initialize::<H>(receiver, name),
        ),
        HandshakeStep::MixKey(data) => (
            spec_mix_key::<H>(sender, data),
            spec_mix_key::<H>(receiver, data),
        ),
        HandshakeStep::MixHash(data) => (
            spec_mix_hash::<H>(sender, data),
            spec_mix_hash::<H>(receiver, data),
        ),
        HandshakeStep::MixKeyAndHash(data) => (
            spec_mix_key_and_hash::<H>(sender, data),
            spec_mix_key_and_hash::<H>(receiver, data),
        ),
        HandshakeStep::Transport(plaintext) => {
            let (sent, message) = spec_encrypt_and_mix_hash::<C, H>(sender, plaintext);
            match message {
                Ok(ct) => (
                    sent,
                    spec_decrypt_and_mix_hash::<C, H>(receiver, ct, plaintext.len()).0,
                ),
                Err(_) => (sent, receiver),
            }
        },
    }
}

/// Both peers' states after a sequence of steps.
pub open spec fn run_pair<C: Cipher, H: crate::types::Hash>(
    sender: SymmetricView,
    receiver: SymmetricView,
    steps: Seq<HandshakeStep>,
) -> (SymmetricView, SymmetricView)
    decreases steps.len(),
{
    if steps.len() == 0 {
        (sender, receiver)
    } else {
        let (a, b) = run_pair::<C, H>(sender, receiver, steps.drop_last());
        pair_step::<C, H>(a, b, steps.last())
    }
}

/// Every transport message of `steps` is within the cipher's limit.
pub open spec fn messages_within_limit<C: Cipher>(steps: Seq<HandshakeStep>) -> bool {
    forall|i: int|
        0 <= i < steps.len() ==> (#[trigger] steps[i] matches HandshakeStep::Transport(p)
            ==> p.len() <= C::spec_max_plaintext())
}

/// Both peers stay in sync: starting from the same state and taking the same steps, they end in
/// the same state, so with the same handshake hash and the same transport keys. This needs a
/// cipher that opens what it seals.
pub proof fn law_peers_agree<C: Cipher, H: crate::types::Hash>(
    start: SymmetricView,
    steps: Seq<HandshakeStep>,
)
    requires
        forall|key: Seq<u8>, nonce: u64, ad: Seq<u8>, p: Seq<u8>|
            p.len() <= C::spec_max_plaintext() ==> #[trigger] seals_and_opens::<C>(key, nonce, ad, p),
        messages_within_limit::<C>(steps),
    ensures
        run_pair::<C, H>(start, start, steps).0 == run_pair::<C, H>(start, start, steps).1,
        hash_ad::<H>(run_pair::<C, H>(start, start, steps).0) == hash_ad::<H>(
            run_pair::<C, H>(start, start, steps).1,
        ),
        split_keys::<H>(run_pair::<C, H>(start, start, steps).0.inner) == split_keys::<H>(
            run_pair::<C, H>(start, start, steps).1.inner,
        ),
    decreases steps.len(),
{
    if steps.len() > 0 {
        let before = steps.drop_last();
        assert forall|i: int| 0 <= i < before.len() implies (#[trigger] before[i] matches HandshakeStep::Transport(p)
            ==> p.len() <= C::spec_max_plaintext()) by {
            assert(before[i] == steps[i]);
        }
        law_peers_agree::<C, H>(start, before);
        let (a, b) = run_pair::<C, H>(start, start, before);
        assert(steps[steps.len() - 1] == steps.last());
        match steps.last() {
            HandshakeStep::Transport(p) => {
                law_refusal_keeps_hash::<C, H>(a, p, p.len());
                if spec_encrypt_and_mix_hash::<C, H>(a, p).1 is Ok {
                    assert(a.inner.has_key ==> seals_and_opens::<C>(
                        a.cipher.key,
                        a.cipher.n,
                        a.inner.h.take(H::spec_hash_len() as int),
                        p,
                    ));
                    law_encrypt_decrypt_round_trip::<C, H>(a, p, p.len());
                }
            },
            _ => {},
        }
    }
}

/// The symmetric state of a Noise handshake.
pub struct SymmetricState<C: Cipher, H: crate::types::Hash> {
    cipherstate: CipherState<C>,
    hasher: H,
    inner: SymmetricStateData,
}

impl<C: Cipher, H: crate::types::Hash> View for SymmetricState<C, H> {
    type V = SymmetricView;

    closed spec fn view(&self) -> SymmetricView {
        SymmetricView { inner: self.inner@, cipher: self.cipherstate@ }
    }
}

impl<C: Cipher, H: crate::types::Hash> SymmetricState<C, H> {
    /// A symmetric state over the given cipher state and hasher, with a zero hash and chaining
    /// key and no key.
    pub fn new(cipherstate: CipherState<C>, hasher: H) -> (s: Self)
        ensures
            s@ == (SymmetricView { inner: cleared(), cipher: cipherstate@ }),
    {
        SymmetricState { cipherstate, hasher, inner: SymmetricStateData::default() }
    }

    /// InitializeSymmetric with the protocol name `handshake_name`.
    pub fn initialize(&mut self, handshake_name: &str)
        ensures
            final(self)@ == spec_initialize::<H>(old(self)@, handshake_name.spec_bytes()),
            hash_ad::<H>(final(self)@) == initial_handshake_hash::<H>(handshake_name.spec_bytes()),
    {
        let name = handshake_name.as_bytes();
        let zero_block = [0u8; 64];
        assert(zero_block@ =~= zeros(MAXHASHLEN as nat));
        self.inner.h = zero_block;
        if name.len() <= self.hasher.hash_len() {
            copy_into(name, &mut self.inner.h);
        } else {
            self.hasher.reset();
            self.hasher.input(name);
            assert(self.hasher.pending() =~= name@);
            self.hasher.result(&mut self.inner.h);
        }
        self.inner.ck = self.inner.h;
        self.inner.has_key = false;
        proof {
            H::lemma_lengths();
            H::lemma_digest_len(name@);
            assert(hash_ad::<H>(self@) =~= initial_handshake_hash::<H>(name@));
        }
    }

    /// MixKey with `data`.
    pub fn mix_key(&mut self, data: &[u8])
        ensures
            final(self)@ == spec_mix_key::<H>(old(self)@, data@),
            final(self)@.inner.ck.take(H::spec_hash_len() as int) == hkdf_output1::<H>(
                ck_key::<H>(old(self)@.inner),
                data@,
            ),
            final(self)@.cipher.key == hkdf_output2::<H>(ck_key::<H>(old(self)@.inner), data@).take(
                CIPHERKEYLEN as int,
            ),
    {
        let hash_len = self.hasher.hash_len();
        let mut next_ck = [0u8; 64];
        let mut key_material = [0u8; 64];
        let mut unused: [u8; 0] = [];
        proof {
            assert(next_ck@ =~= zeros(MAXHASHLEN as nat));
            assert(key_material@ =~= zeros(MAXHASHLEN as nat));
        }
        hkdf(
            &mut self.hasher,
            &self.inner.ck.as_slice()[0..hash_len],
            data,
            2,
            &mut next_ck,
            &mut key_material,
            &mut unused,
        );
        let mut new_key = [0u8; 32];
        copy_into(&key_material.as_slice()[0..32], &mut new_key);
        assert(new_key@ =~= cipher_key::<H>(hkdf_output2::<H>(ck_key::<H>(old(self)@.inner), data@)));
        self.inner.ck = next_ck;
        self.cipherstate.set(&new_key, 0);
        self.inner.has_key = true;
        wipe(&mut next_ck);
        wipe(&mut key_material);
        wipe(&mut new_key);
        proof {
            lemma_hkdf_lengths::<H>(ck_key::<H>(old(self)@.inner), data@);
            lemma_in_buffer_prefix::<H>(hkdf_output1::<H>(ck_key::<H>(old(self)@.inner), data@));
            lemma_cipher_key::<H>(hkdf_output2::<H>(ck_key::<H>(old(self)@.inner), data@));
        }
    }

    /// MixHash with `data`.
    pub fn mix_hash(&mut self, data: &[u8])
        ensures
            final(self)@ == spec_mix_hash::<H>(old(self)@, data@),
            hash_ad::<H>(final(self)@) == H::spec_digest(hash_ad::<H>(old(self)@) + data@),
    {
        let hash_len = self.hasher.hash_len();
        self.hasher.reset();
        self.hasher.input(&self.inner.h.as_slice()[0..hash_len]);
        self.hasher.input(data);
        assert(self.hasher.pending() =~= old(self).inner.h@.take(hash_len as int) + data@);
        self.hasher.result(&mut self.inner.h);
        proof {
            lemma_mixed_hash_prefix::<H>(old(self)@.inner.h, data@);
        }
    }

    /// MixKeyAndHash with `data`.
    pub fn mix_key_and_hash(&mut self, data: &[u8])
        ensures
            final(self)@ == spec_mix_key_and_hash::<H>(old(self)@, data@),
            final(self)@.inner.ck.take(H::spec_hash_len() as int) == hkdf_output1::<H>(
                ck_key::<H>(old(self)@.inner),
                data@,
            ),
            hash_ad::<H>(final(self)@) == H::spec_digest(
                hash_ad::<H>(old(self)@) + hkdf_output2::<H>(ck_key::<H>(old(self)@.inner), data@),
            ),
            final(self)@.cipher.key == hkdf_output3::<H>(ck_key::<H>(old(self)@.inner), data@).take(
                CIPHERKEYLEN as int,
            ),
    {
        let hash_len = self.hasher.hash_len();
        let mut next_ck = [0u8; 64];
        let mut temp_h = [0u8; 64];
        let mut key_material = [0u8; 64];
        proof {
            assert(next_ck@ =~= zeros(MAXHASHLEN as nat));
            assert(temp_h@ =~= zeros(MAXHASHLEN as nat));
            assert(key_material@ =~= zeros(MAXHASHLEN as nat));
        }
        hkdf(
            &mut self.hasher,
            &self.inner.ck.as_slice()[0..hash_len],
            data,
            3,
            &mut next_ck,
            &mut temp_h,
            &mut key_material,
        );
        self.inner.ck = next_ck;
        let mixed = &temp_h.as_slice()[0..hash_len];
        assert(mixed@ =~= hkdf_output2::<H>(ck_key::<H>(old(self)@.inner), data@));
        self.mix_hash(mixed);
        let mut new_key = [0u8; 32];
        copy_into(&key_material.as_slice()[0..32], &mut new_key);
        assert(new_key@ =~= cipher_key::<H>(hkdf_output3::<H>(ck_key::<H>(old(self)@.inner), data@)));
        self.cipherstate.set(&new_key, 0);
        self.inner.has_key = true;
        wipe(&mut next_ck);
        wipe(&mut temp_h);
        wipe(&mut key_material);
        wipe(&mut new_key);
        proof {
            lemma_hkdf_lengths::<H>(ck_key::<H>(old(self)@.inner), data@);
            lemma_in_buffer_prefix::<H>(hkdf_output1::<H>(ck_key::<H>(old(self)@.inner), data@));
            lemma_cipher_key::<H>(hkdf_output3::<H>(ck_key::<H>(old(self)@.inner), data@));
            lemma_mixed_hash_prefix::<H>(
                old(self)@.inner.h,
                hkdf_output2::<H>(ck_key::<H>(old(self)@.inner), data@),
            );
        }
    }

    /// Whether a key was mixed in.
    pub fn has_key(&self) -> (b: bool)
        ensures
            b == self@.inner.has_key,
    {
        self.inner.has_key
    }

    /// Encrypts a message (or passes it unchanged before any key was mixed in) into the front
    /// of `out` and mixes what is sent into the hash.
    pub fn encrypt_and_mix_hash(&mut self, plaintext: &[u8], out: &mut [u8]) -> (r: Result<
        usize,
        Error,
    >)
        requires
            encrypt_has_room::<C>(old(self)@, plaintext@.len(), old(out)@.len()),
        ensures
            final(self)@ == spec_encrypt_and_mix_hash::<C, H>(old(self)@, plaintext@).0,
            outcome_written(
                old(out)@,
                final(out)@,
                r,
                spec_encrypt_and_mix_hash::<C, H>(old(self)@, plaintext@).1,
            ),
            r matches Ok(len) ==> len == plaintext@.len() + if old(self)@.inner.has_key {
                TAGLEN
            } else {
                0
            },
            r matches Ok(len) ==> forall|out_len: nat|
                out_len >= plaintext@.len() ==> #[trigger] spec_decrypt_and_mix_hash::<C, H>(
                    old(self)@,
                    final(out)@.take(len as int),
                    out_len,
                ) == (final(self)@, Ok::<Seq<u8>, Error>(plaintext@)),
    {
        let hash_len = self.hasher.hash_len();
        let output_len = if self.inner.has_key {
            let ad = &self.inner.h.as_slice()[0..hash_len];
            assert(ad@ =~= old(self)@.inner.h.take(H::spec_hash_len() as int));
            match self.cipherstate.encrypt_ad(ad, plaintext, out) {
                Ok(len) => {
                    let ghost outcome = spec_encrypt_ad::<C>(old(self)@.cipher, ad@, plaintext@).1;
                    assert(outcome is Ok);
                    let ghost ct = outcome->Ok_0;
                    assert(out@.take(len as int) =~= ct);
                    len
                },
                Err(e) => {
                    return Err(e);
                },
            }
        } else {
            copy_into(plaintext, out);
            plaintext.len()
        };
        let sent = &out[0..output_len];
        assert(sent@ =~= spec_encrypt_and_mix_hash::<C, H>(old(self)@, plaintext@).1->Ok_0);
        self.mix_hash(sent);
        proof {
            assert forall|out_len: nat| out_len >= plaintext@.len() implies #[trigger] spec_decrypt_and_mix_hash::<C, H>(
                old(self)@,
                out@.take(output_len as int),
                out_len,
            ) == (self@, Ok::<Seq<u8>, Error>(plaintext@)) by {
                law_encrypt_decrypt_round_trip::<C, H>(old(self)@, plaintext@, out_len);
            }
        }
        Ok(output_len)
    }

    /// Decrypts a message (or passes it unchanged before any key was mixed in) into the front
    /// of `out` and mixes what was received into the hash.
    pub fn decrypt_and_mix_hash(&mut self, data: &[u8], out: &mut [u8]) -> (r: Result<
        usize,
        Error,
    >)
        requires
            old(self)@.inner.has_key ==> decrypt_within_limit::<C>(
                old(self)@.cipher,
                data@.len(),
                old(out)@.len(),
            ),
        ensures
            final(self)@ == spec_decrypt_and_mix_hash::<C, H>(old(self)@, data@, old(out)@.len()).0,
            outcome_written(
                old(out)@,
                final(out)@,
                r,
                spec_decrypt_and_mix_hash::<C, H>(old(self)@, data@, old(out)@.len()).1,
            ),
            r matches Ok(len) ==> len + (if old(self)@.inner.has_key {
                TAGLEN
            } else {
                0
            }) == data@.len(),
    {
        let hash_len = self.hasher.hash_len();
        let payload_len = if self.inner.has_key {
            match self.cipherstate.decrypt_ad(&self.inner.h.as_slice()[0..hash_len], data, out) {
                Ok(len) => len,
                Err(e) => {
                    return Err(e);
                },
            }
        } else {
            if out.len() < data.len() {
                return Err(Error::Decrypt);
            }
            copy_into(data, out);
            data.len()
        };
        self.mix_hash(data);
        Ok(payload_len)
    }

    /// Split: keys `child1` and `child2` with the two outputs of `HKDF(ck, "", 2)`, at nonce 0.
    pub fn split(&mut self, child1: &mut CipherState<C>, child2: &mut CipherState<C>)
        ensures
            final(self)@ == old(self)@,
            final(child1)@ == keyed(split_keys::<H>(old(self)@.inner).0),
            final(child2)@ == keyed(split_keys::<H>(old(self)@.inner).1),
    {
        let _hash_len = self.hasher.hash_len();
        let mut out1 = [0u8; 64];
        let mut out2 = [0u8; 64];
        proof {
            assert(out1@ =~= zeros(MAXHASHLEN as nat));
            assert(out2@ =~= zeros(MAXHASHLEN as nat));
        }
        self.split_raw(&mut out1, &mut out2);
        let mut key1 = [0u8; 32];
        let mut key2 = [0u8; 32];
        copy_into(&out1.as_slice()[0..32], &mut key1);
        copy_into(&out2.as_slice()[0..32], &mut key2);
        proof {
            lemma_hkdf_lengths::<H>(ck_key::<H>(old(self)@.inner), Seq::empty());
            H::lemma_lengths();
        }
        assert(key1@ =~= split_keys::<H>(old(self)@.inner).0);
        assert(key2@ =~= split_keys::<H>(old(self)@.inner).1);
        child1.set(&key1, 0);
        child2.set(&key2, 0);
        wipe(&mut out1);
        wipe(&mut out2);
        wipe(&mut key1);
        wipe(&mut key2);
    }

    /// The two outputs of `HKDF(ck, "", 2)`, written into the front of `out1` and `out2`.
    pub fn split_raw(&mut self, out1: &mut [u8], out2: &mut [u8])
        requires
            old(out1)@.len() >= H::spec_hash_len(),
            old(out2)@.len() >= H::spec_hash_len(),
        ensures
            final(self)@ == old(self)@,
            final(out1)@ == overwritten(
                old(out1)@,
                hkdf_output1::<H>(ck_key::<H>(old(self)@.inner), Seq::empty()),
                H::spec_hash_len(),
            ),
            final(out2)@ == overwritten(
                old(out2)@,
                hkdf_output2::<H>(ck_key::<H>(old(self)@.inner), Seq::empty()),
                H::spec_hash_len(),
            ),
            final(out1)@.take(H::spec_hash_len() as int) == hkdf_output1::<H>(
                ck_key::<H>(old(self)@.inner),
                Seq::empty(),
            ),
            final(out2)@.take(H::spec_hash_len() as int) == hkdf_output2::<H>(
                ck_key::<H>(old(self)@.inner),
                Seq::empty(),
            ),
    {
        let hash_len = self.hasher.hash_len();
        let empty: [u8; 0] = [];
        let mut unused: [u8; 0] = [];
        assert(empty@ =~= Seq::<u8>::empty());
        hkdf(
            &mut self.hasher,
            &self.inner.ck.as_slice()[0..hash_len],
            empty.as_slice(),
            2,
            out1,
            out2,
            &mut unused,
        );
        proof {
            lemma_hkdf_lengths::<H>(ck_key::<H>(old(self)@.inner), Seq::empty());
            lemma_overwritten_prefix(
                old(out1)@,
                hkdf_output1::<H>(ck_key::<H>(old(self)@.inner), Seq::empty()),
                H::spec_hash_len(),
            );
            lemma_overwritten_prefix(
                old(out2)@,
                hkdf_output2::<H>(ck_key::<H>(old(self)@.inner), Seq::empty()),
                H::spec_hash_len(),
            );
        }
    }

    /// A snapshot of the hash, the chaining key and the key flag, from which a partially
    /// processed message can be rolled back.
    pub fn checkpoint(&mut self) -> (snapshot: Checkpoint)
        ensures
            final(self)@ == old(self)@,
            snapshot@ == spec_checkpoint(old(self)@),
    {
        Checkpoint { data: self.inner }
    }

    /// Rolls the hash, the chaining key and the key flag back to a snapshot; the cipher state
    /// is kept.
    pub fn restore(&mut self, checkpoint: &SymmetricStateData)
        ensures
            final(self)@ == spec_restore(old(self)@, checkpoint@),
    {
        self.inner = *checkpoint;
    }

    /// The handshake hash: the first `hash_len` bytes of `h`.
    pub fn handshake_hash(&self) -> (hash: &[u8])
        ensures
            hash@ == hash_ad::<H>(self@),
            hash@.len() == H::spec_hash_len(),
    {
        let hash_len = self.hasher.hash_len();
        &self.inner.h.as_slice()[0..hash_len]
    }
}

impl<C: Cipher, H: crate::types::Hash> Drop for SymmetricState<C, H> {
    /// The chaining key is secret key material; the hash is wiped with it.
    fn drop(&mut self)
        ensures
            final(self)@.inner == cleared(),
        opens_invariants none
        no_unwind
    {
        self.inner.zeroize();
    }
}

} // verus!
