use snow::constants::MAXHASHLEN;
use snow::{CipherChaChaPoly, CipherState, Error, HashSHA256, StateProblem, SymmetricState, SymmetricStateData};

const NAME: &str = "Noise_NN_25519_ChaChaPoly_SHA256";

fn unhex(s: &str) -> Vec<u8> {
    (0..s.len()).step_by(2).map(|i| u8::from_str_radix(&s[i..i + 2], 16).unwrap()).collect()
}

fn fresh() -> SymmetricState<CipherChaChaPoly, HashSHA256> {
    SymmetricState::new(CipherState::new(CipherChaChaPoly::new()), HashSHA256::new())
}

fn keyed_pair() -> (SymmetricState<CipherChaChaPoly, HashSHA256>, SymmetricState<CipherChaChaPoly, HashSHA256>) {
    let mut a = fresh();
    let mut b = fresh();
    for s in [&mut a, &mut b] {
        s.initialize(NAME);
        s.mix_hash(b"prologue");
        s.mix_key(b"input key material");
    }
    (a, b)
}

/// Guard the field list of `SymmetricStateData`: every field is wiped.
#[test]
fn test_symmetricstatedata_zeroize_clears_all_fields() {
    let mut data =
        SymmetricStateData { h: [0x24; MAXHASHLEN], ck: [0x42; MAXHASHLEN], has_key: true };
    data.zeroize();
    assert_eq!(data.ck, [0_u8; MAXHASHLEN]);
    assert_eq!(data.h, [0_u8; MAXHASHLEN]);
    assert!(!data.has_key);
}

#[test]
fn default_data_is_zero() {
    let data = SymmetricStateData::default();
    assert_eq!(data.h, [0_u8; MAXHASHLEN]);
    assert_eq!(data.ck, [0_u8; MAXHASHLEN]);
    assert!(!data.has_key);
}

#[test]
fn initialize_with_name_of_hash_length_uses_it_as_hash() {
    let mut s = fresh();
    s.initialize(NAME);
    assert_eq!(s.handshake_hash(), NAME.as_bytes());
    assert!(!s.has_key());
    let snapshot = s.checkpoint();
    assert_eq!(snapshot.ck, snapshot.h);
}

#[test]
fn initialize_with_short_name_pads_with_zeros() {
    let mut s = fresh();
    s.initialize(NAME);
    s.mix_hash(b"x");
    s.initialize("abc");
    let mut expected = vec![0_u8; 32];
    expected[..3].copy_from_slice(b"abc");
    assert_eq!(s.handshake_hash(), &expected[..]);
    let snapshot = s.checkpoint();
    let mut padded = [0_u8; MAXHASHLEN];
    padded[..3].copy_from_slice(b"abc");
    assert_eq!(snapshot.h, padded);
    assert_eq!(snapshot.ck, snapshot.h);
}

#[test]
fn initialize_with_long_name_hashes_it() {
    let mut s = fresh();
    s.initialize("Noise_XXpsk3_25519_ChaChaPoly_SHA256");
    assert_eq!(
        s.handshake_hash(),
        &unhex("d4163f913dcc89f7801c4345e2ef79367b58f64cfc64090982a334eedc9a3bd9")[..]
    );
}

#[test]
fn mix_hash_hashes_hash_and_data() {
    let mut s = fresh();
    s.initialize(NAME);
    s.mix_hash(b"prologue");
    assert_eq!(
        s.handshake_hash(),
        &unhex("27ecd54c7f8450ece97fff8de39540c6925be4202fde31fdf28aa8731aef9140")[..]
    );
    assert!(!s.has_key());
}

#[test]
fn mix_key_derives_chaining_key_and_cipher_key() {
    let (mut s, _) = keyed_pair();
    assert!(s.has_key());
    let snapshot = s.checkpoint();
    assert_eq!(
        &snapshot.ck[..32],
        &unhex("26908ce72fdd01b8ef1804ace2d871012cb5abf58817ab0bd4b4dc90d476f6c2")[..]
    );
    assert_eq!(&snapshot.ck[32..], &[0_u8; 32][..]);
    // The handshake hash is not touched by MixKey.
    assert_eq!(
        s.handshake_hash(),
        &unhex("27ecd54c7f8450ece97fff8de39540c6925be4202fde31fdf28aa8731aef9140")[..]
    );
}

#[test]
fn encrypt_and_mix_hash_with_key() {
    let (mut s, _) = keyed_pair();
    let mut out = [0_u8; 64];
    let len = s.encrypt_and_mix_hash(b"hello", &mut out).unwrap();
    assert_eq!(len, 5 + 16);
    assert_eq!(&out[..len], &unhex("832dc8b1fe4e4bfc3826b50dd7bbd7d365ba39a9a1")[..]);
    assert_eq!(&out[len..], &[0_u8; 64 - 21][..]);
    assert_eq!(
        s.handshake_hash(),
        &unhex("00242e81a6e59070a9bdb4b875cb21081b9ada566308b6823842bae08333bbf8")[..]
    );
}

#[test]
fn encrypt_and_mix_hash_without_key_passes_plaintext() {
    let mut s = fresh();
    s.initialize(NAME);
    let mut out = [7_u8; 4];
    let len = s.encrypt_and_mix_hash(b"hi", &mut out).unwrap();
    assert_eq!(len, 2);
    assert_eq!(out, [b'h', b'i', 7, 7]);
    assert_eq!(
        s.handshake_hash(),
        &unhex("513abfa22be325a2f73d96d4a0cff723b1eee8cfc28d6bcae087d2b067652e3b")[..]
    );
}

#[test]
fn encrypt_decrypt_round_trip() {
    let (mut alice, mut bob) = keyed_pair();
    for message in [&b"hello"[..], &b""[..], &b"a somewhat longer message for the second nonce"[..]] {
        let mut wire = [0_u8; 128];
        let len = alice.encrypt_and_mix_hash(message, &mut wire).unwrap();
        let mut received = [0_u8; 128];
        let got = bob.decrypt_and_mix_hash(&wire[..len], &mut received).unwrap();
        assert_eq!(&received[..got], message);
        assert_eq!(alice.handshake_hash(), bob.handshake_hash());
    }
}

#[test]
fn round_trip_without_key() {
    let mut alice = fresh();
    let mut bob = fresh();
    alice.initialize(NAME);
    bob.initialize(NAME);
    let mut wire = [0_u8; 16];
    let len = alice.encrypt_and_mix_hash(b"cleartext", &mut wire).unwrap();
    let mut received = [0_u8; 16];
    let got = bob.decrypt_and_mix_hash(&wire[..len], &mut received).unwrap();
    assert_eq!(&received[..got], b"cleartext");
    assert_eq!(alice.handshake_hash(), bob.handshake_hash());
}

#[test]
fn tampered_ciphertext_is_refused_and_hash_kept() {
    let (mut alice, mut bob) = keyed_pair();
    let mut wire = [0_u8; 64];
    let len = alice.encrypt_and_mix_hash(b"hello", &mut wire).unwrap();
    wire[0] ^= 1;
    let before = bob.handshake_hash().to_vec();
    let mut received = [9_u8; 64];
    assert_eq!(bob.decrypt_and_mix_hash(&wire[..len], &mut received), Err(Error::Decrypt));
    assert_eq!(bob.handshake_hash(), &before[..]);
    assert_eq!(received, [9_u8; 64]);
    // The refusal used up no nonce: the genuine message still opens.
    wire[0] ^= 1;
    let got = bob.decrypt_and_mix_hash(&wire[..len], &mut received).unwrap();
    assert_eq!(&received[..got], b"hello");
    assert_eq!(alice.handshake_hash(), bob.handshake_hash());
}

#[test]
fn short_ciphertext_is_refused() {
    let (_, mut bob) = keyed_pair();
    let mut received = [0_u8; 64];
    assert_eq!(bob.decrypt_and_mix_hash(&[1, 2, 3], &mut received), Err(Error::Decrypt));
}

#[test]
fn decrypt_without_key_needs_room() {
    let mut s = fresh();
    s.initialize(NAME);
    let mut out = [0_u8; 2];
    assert_eq!(s.decrypt_and_mix_hash(b"abc", &mut out), Err(Error::Decrypt));
    assert_eq!(s.handshake_hash(), NAME.as_bytes());
}

#[test]
fn key_flag_without_cipher_key_is_refused() {
    let mut s = fresh();
    s.initialize(NAME);
    s.restore(&SymmetricStateData { h: [1; MAXHASHLEN], ck: [2; MAXHASHLEN], has_key: true });
    let mut out = [0_u8; 64];
    assert_eq!(
        s.encrypt_and_mix_hash(b"hello", &mut out),
        Err(Error::State(StateProblem::MissingKeyMaterial))
    );
    assert_eq!(
        s.decrypt_and_mix_hash(&[0_u8; 20], &mut out),
        Err(Error::State(StateProblem::MissingKeyMaterial))
    );
}

#[test]
fn checkpoint_and_restore_roll_back() {
    let (mut s, _) = keyed_pair();
    let snapshot = s.checkpoint();
    let before = s.handshake_hash().to_vec();
    s.mix_hash(b"something");
    s.mix_key(b"more");
    assert_ne!(s.handshake_hash(), &before[..]);
    s.restore(&snapshot);
    assert_eq!(s.handshake_hash(), &before[..]);
    let again = s.checkpoint();
    assert_eq!(again.ck, snapshot.ck);
    assert_eq!(again.h, snapshot.h);
    assert_eq!(again.has_key, snapshot.has_key);
}

#[test]
fn split_raw_outputs() {
    let (mut s, _) = keyed_pair();
    let mut out = [0_u8; 64];
    s.encrypt_and_mix_hash(b"hello", &mut out).unwrap();
    let mut k1 = [0xee_u8; 40];
    let mut k2 = [0xee_u8; 40];
    s.split_raw(&mut k1, &mut k2);
    assert_eq!(&k1[..32], &unhex("b5666a7fb091ad667ea32117cf6375f8f642fa1a0fb7295460ddb970784c1f79")[..]);
    assert_eq!(&k2[..32], &unhex("9a68ccce91ee0061f23c3e64efe700c7f7fffa388f23ef3bd5ef3323270a1cba")[..]);
    assert_eq!(&k1[32..], &[0xee_u8; 8][..]);
}

#[test]
fn split_keys_transport_ciphers() {
    let (mut s, _) = keyed_pair();
    let mut out = [0_u8; 64];
    s.encrypt_and_mix_hash(b"hello", &mut out).unwrap();
    let mut c1 = CipherState::new(CipherChaChaPoly::new());
    let mut c2 = CipherState::new(CipherChaChaPoly::new());
    s.split(&mut c1, &mut c2);
    assert!(c1.has_key() && c2.has_key());
    assert_eq!(c1.nonce(), 0);
    let mut wire = [0_u8; 20];
    let len = c1.encrypt_ad(b"", b"ping", &mut wire).unwrap();
    assert_eq!(&wire[..len], &unhex("204839369dee20f4c7e70c4b104be9dabfc29bb1")[..]);
    assert_eq!(c1.nonce(), 1);
}

#[test]
fn split_is_the_same_on_both_sides() {
    let (mut alice, mut bob) = keyed_pair();
    let (mut a1, mut a2) = ([0_u8; 32], [0_u8; 32]);
    let (mut b1, mut b2) = ([0_u8; 32], [0_u8; 32]);
    alice.split_raw(&mut a1, &mut a2);
    bob.split_raw(&mut b1, &mut b2);
    assert_eq!(a1, b1);
    assert_eq!(a2, b2);
    assert_ne!(a1, a2);
}

#[test]
fn mix_key_and_hash_values() {
    let mut s = fresh();
    s.initialize(NAME);
    s.mix_key_and_hash(b"psk");
    let snapshot = s.checkpoint();
    assert_eq!(
        &snapshot.ck[..32],
        &unhex("ce058adfe8bc90fd3a0769df684478a5780574b5ea64b7204478e0d19da0368a")[..]
    );
    assert_eq!(
        s.handshake_hash(),
        &unhex("2a587720b61be8b15b03e32d805a1b62515c2e8a5872500b4661c5bdf02fd141")[..]
    );
    // A key is recorded, so the next message is encrypted under it.
    assert!(s.has_key());
    let mut out = [0_u8; 32];
    let len = s.encrypt_and_mix_hash(b"hello", &mut out).unwrap();
    assert_eq!(&out[..len], &unhex("a0cb62ad3f158937e2dc314870c697a7655ac2645a")[..]);
}

#[test]
fn key_flag_follows_the_last_keying_operation() {
    let mut s = fresh();
    assert!(!s.has_key());
    s.initialize(NAME);
    s.mix_hash(b"prologue");
    assert!(!s.has_key());
    s.mix_key(b"ikm");
    assert!(s.has_key());
    let mut out = [0_u8; 64];
    s.encrypt_and_mix_hash(b"m", &mut out).unwrap();
    let mut sink = [0_u8; 64];
    assert!(s.decrypt_and_mix_hash(&[0_u8; 20], &mut sink).is_err());
    assert!(s.has_key());
    s.initialize(NAME);
    assert!(!s.has_key());
    s.mix_key_and_hash(b"psk");
    assert!(s.has_key());
}

#[test]
fn mix_hash_depends_only_on_handshake_hash() {
    let mut a = fresh();
    let mut b = fresh();
    a.initialize(NAME);
    b.initialize(NAME);
    // Same handshake hash, different bytes after it and a different chaining key.
    let mut other = SymmetricStateData { h: [0x77; MAXHASHLEN], ck: [0x11; MAXHASHLEN], has_key: false };
    other.h[..32].copy_from_slice(NAME.as_bytes());
    b.restore(&other);
    a.mix_hash(b"prologue");
    b.mix_hash(b"prologue");
    assert_eq!(a.handshake_hash(), b.handshake_hash());
    assert_eq!(
        a.handshake_hash(),
        &unhex("27ecd54c7f8450ece97fff8de39540c6925be4202fde31fdf28aa8731aef9140")[..]
    );
}

#[test]
fn peers_agree_after_the_same_steps() {
    let (mut alice, mut bob) = keyed_pair();
    for message in [&b"one"[..], &b"two"[..]] {
        let mut wire = [0_u8; 64];
        let len = alice.encrypt_and_mix_hash(message, &mut wire).unwrap();
        let mut received = [0_u8; 64];
        bob.decrypt_and_mix_hash(&wire[..len], &mut received).unwrap();
    }
    alice.mix_key_and_hash(b"psk");
    bob.mix_key_and_hash(b"psk");
    assert_eq!(alice.handshake_hash(), bob.handshake_hash());
    let (mut a1, mut a2) = ([0_u8; 32], [0_u8; 32]);
    let (mut b1, mut b2) = ([0_u8; 32], [0_u8; 32]);
    alice.split_raw(&mut a1, &mut a2);
    bob.split_raw(&mut b1, &mut b2);
    assert_eq!((a1, a2), (b1, b2));
    // A second split_raw writes the same keys again.
    let (mut c1, mut c2) = ([9_u8; 32], [9_u8; 32]);
    alice.split_raw(&mut c1, &mut c2);
    assert_eq!((a1, a2), (c1, c2));
}
