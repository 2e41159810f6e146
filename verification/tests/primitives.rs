use snow::{CipherChaChaPoly, CipherState, Error, HashSHA256, StateProblem};

fn unhex(s: &str) -> Vec<u8> {
    (0..s.len()).step_by(2).map(|i| u8::from_str_radix(&s[i..i + 2], 16).unwrap()).collect()
}

#[test]
fn sha256_digest_of_abc() {
    let mut h = HashSHA256::new();
    snow::types::Hash::reset(&mut h);
    snow::types::Hash::input(&mut h, b"a");
    snow::types::Hash::input(&mut h, b"bc");
    let mut out = [0_u8; 40];
    snow::types::Hash::result(&mut h, &mut out);
    assert_eq!(&out[..32], &unhex("ba7816bf8f01cfea414140de5dae2223b00361a396177a9cb410ff61f20015ad")[..]);
    assert_eq!(&out[32..], &[0_u8; 8][..]);
    assert_eq!(snow::types::Hash::hash_len(&h), 32);
    assert_eq!(snow::types::Hash::block_len(&h), 64);
}

#[test]
fn hasher_reset_clears_state() {
    let mut h = HashSHA256::new();
    snow::types::Hash::input(&mut h, b"something else entirely");
    snow::types::Hash::reset(&mut h);
    snow::types::Hash::input(&mut h, b"abc");
    let mut out = [0_u8; 32];
    snow::types::Hash::result(&mut h, &mut out);
    assert_eq!(&out[..], &unhex("ba7816bf8f01cfea414140de5dae2223b00361a396177a9cb410ff61f20015ad")[..]);
}

#[test]
fn hmac_sha256() {
    let mut h = HashSHA256::new();
    let mut out = [0_u8; 32];
    snow::types::hmac(&mut h, b"key", b"abc", &mut out);
    assert_eq!(&out[..], &unhex("9c196e32dc0175f86f4b1cb89289d6619de6bee699e4c378e68309ed97a1a6ab")[..]);
}

#[test]
fn hkdf_one_output_leaves_others() {
    let mut h = HashSHA256::new();
    let mut o1 = [0_u8; 32];
    let mut o2 = [5_u8; 32];
    let mut o3 = [6_u8; 32];
    snow::types::hkdf(&mut h, b"Noise_NN_25519_ChaChaPoly_SHA256", b"input key material", 1, &mut o1, &mut o2, &mut o3);
    assert_eq!(&o1[..], &unhex("26908ce72fdd01b8ef1804ace2d871012cb5abf58817ab0bd4b4dc90d476f6c2")[..]);
    assert_eq!(o2, [5_u8; 32]);
    assert_eq!(o3, [6_u8; 32]);
}

#[test]
fn cipherstate_without_key_refuses() {
    let mut c = CipherState::new(CipherChaChaPoly::new());
    assert!(!c.has_key());
    let mut out = [0_u8; 32];
    assert_eq!(c.encrypt_ad(b"", b"x", &mut out), Err(Error::State(StateProblem::MissingKeyMaterial)));
    assert_eq!(c.decrypt_ad(b"", &[0_u8; 17], &mut out), Err(Error::State(StateProblem::MissingKeyMaterial)));
    assert_eq!(out, [0_u8; 32]);
}

#[test]
fn cipherstate_exhausted_nonce_refuses() {
    let mut c = CipherState::new(CipherChaChaPoly::new());
    c.set(&[1_u8; 32], u64::MAX);
    let mut out = [0_u8; 32];
    assert_eq!(c.encrypt_ad(b"", b"x", &mut out), Err(Error::State(StateProblem::Exhausted)));
    assert_eq!(c.decrypt_ad(b"", &[0_u8; 17], &mut out), Err(Error::State(StateProblem::Exhausted)));
    assert_eq!(c.nonce(), u64::MAX);
}

#[test]
fn cipherstate_round_trip_and_wrong_key() {
    let mut sealer = CipherState::new(CipherChaChaPoly::new());
    let mut opener = CipherState::new(CipherChaChaPoly::new());
    let mut wrong = CipherState::new(CipherChaChaPoly::new());
    sealer.set(&[0x24_u8; 32], 0);
    opener.set(&[0x24_u8; 32], 0);
    wrong.set(&[0x42_u8; 32], 0);
    let mut ct = [0_u8; 64];
    let len = sealer.encrypt_ad(b"associated data", b"the mysterious ether", &mut ct).unwrap();
    assert_eq!(len, 20 + 16);
    assert_ne!(&ct[..20], b"the mysterious ether");
    let mut pt = [0_u8; 64];
    assert_eq!(wrong.decrypt_ad(b"associated data", &ct[..len], &mut pt), Err(Error::Decrypt));
    assert_eq!(wrong.nonce(), 0);
    let got = opener.decrypt_ad(b"associated data", &ct[..len], &mut pt).unwrap();
    assert_eq!(&pt[..got], b"the mysterious ether");
    assert_eq!(opener.nonce(), 1);
}

#[test]
fn cipherstate_decrypt_needs_room() {
    let mut c = CipherState::new(CipherChaChaPoly::new());
    c.set(&[1_u8; 32], 0);
    let mut out = [0_u8; 3];
    assert_eq!(c.decrypt_ad(b"", &[0_u8; 20], &mut out), Err(Error::Decrypt));
    assert_eq!(c.nonce(), 0);
}
