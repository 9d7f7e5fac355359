use ce_mail::crypto::{
    decode_sealed, encode_sealed, open, seal, seal_with, try_encode_sealed,
    x25519_public_from_node_id, x25519_secret_from_ed25519, KDF_DOMAIN,
};
use ce_mail::digest::NodeId;
use ce_mail::error::{Format, MailError};
use ce_mail::SealedBody;
use chacha20poly1305::aead::Aead;
use chacha20poly1305::{ChaCha20Poly1305, Key, KeyInit, Nonce};
use curve25519_dalek::montgomery::MontgomeryPoint;
use curve25519_dalek::scalar::Scalar;
use ed25519_dalek::SigningKey;
use sha2::{Digest, Sha256, Sha512};

/// A node whose key is made of a tag.
struct Node {
    key: SigningKey,
}

impl Node {
    fn node_id(&self) -> NodeId {
        self.key.verifying_key().to_bytes()
    }

    fn node_id_hex(&self) -> String {
        hex::encode(self.node_id())
    }

    fn secret_bytes(&self) -> [u8; 32] {
        self.key.to_bytes()
    }
}

fn id(tag: &str) -> Node {
    let seed: [u8; 32] = Sha256::digest(tag.as_bytes()).into();
    Node { key: SigningKey::from_bytes(&seed) }
}

#[test]
fn derived_x25519_public_matches_montgomery_of_ed25519() {
    let recip = id("derive");
    let secret = recip.secret_bytes();
    let derived_secret = x25519_secret_from_ed25519(&secret);
    let pk_from_secret =
        MontgomeryPoint::mul_base(&Scalar::from_bytes_mod_order(derived_secret)).to_bytes();
    let pk_from_node_id = x25519_public_from_node_id(&recip.node_id()).unwrap();
    assert_eq!(pk_from_secret, pk_from_node_id, "X25519 pubkey derivation disagrees");
}

#[test]
fn seal_open_roundtrip() {
    let recip = id("rt");
    let msg = b"the eagle lands at midnight";
    let sealed = seal(&recip.node_id(), msg).unwrap();
    let opened = open(&recip.secret_bytes(), &sealed).unwrap();
    assert_eq!(opened, msg);
}

#[test]
fn seal_open_empty_body() {
    let recip = id("empty");
    let sealed = seal(&recip.node_id(), b"").unwrap();
    let opened = open(&recip.secret_bytes(), &sealed).unwrap();
    assert_eq!(opened, b"");
}

#[test]
fn wrong_recipient_cannot_open() {
    let recip = id("right");
    let other = id("wrong");
    let sealed = seal(&recip.node_id(), b"secret").unwrap();
    assert!(open(&other.secret_bytes(), &sealed).is_err());
    assert_eq!(open(&other.secret_bytes(), &sealed), Err(MailError::OpenFailed));
}

#[test]
fn tampered_ciphertext_fails() {
    let recip = id("tamper");
    let mut sealed = seal(&recip.node_id(), b"important").unwrap();
    if let Some(b) = sealed.ciphertext.first_mut() {
        *b ^= 0xff;
    }
    assert!(open(&recip.secret_bytes(), &sealed).is_err());
}

#[test]
fn tampered_nonce_fails() {
    let recip = id("noncetamper");
    let mut sealed = seal(&recip.node_id(), b"important").unwrap();
    sealed.nonce[0] ^= 0xff;
    assert!(open(&recip.secret_bytes(), &sealed).is_err());
}

#[test]
fn malformed_epk_is_rejected_gracefully() {
    let recip = id("badepk");
    let mut sealed = seal(&recip.node_id(), b"x").unwrap();
    sealed.epk.truncate(10);
    let r = open(&recip.secret_bytes(), &sealed);
    assert!(r.is_err());
    assert_eq!(r, Err(MailError::MalformedEphemeralKey));
}

#[test]
fn malformed_nonce_len_is_rejected_gracefully() {
    let recip = id("badnonce");
    let mut sealed = seal(&recip.node_id(), b"x").unwrap();
    sealed.nonce.push(0);
    assert!(open(&recip.secret_bytes(), &sealed).is_err());
    assert_eq!(open(&recip.secret_bytes(), &sealed), Err(MailError::MalformedNonce));
}

#[test]
fn invalid_node_id_pubkey_errors() {
    let bad = [0xffu8; 32];
    let _ = x25519_public_from_node_id(&bad);
}

#[test]
fn encode_decode_sealed_roundtrip() {
    let recip = id("codec");
    let sealed = seal(&recip.node_id(), b"hello").unwrap();
    let bytes = encode_sealed(&sealed);
    let back = decode_sealed(&bytes).unwrap();
    assert_eq!(sealed, back);
    assert_eq!(try_encode_sealed(&sealed).unwrap(), bytes);
}

#[test]
fn decode_sealed_rejects_garbage() {
    assert!(decode_sealed(&[0xde, 0xad]).is_err());
    assert_eq!(decode_sealed(&[]).err(), Some(MailError::Malformed(Format::SealedBody)));
}

#[test]
fn two_seals_use_distinct_ephemeral_keys() {
    let recip = id("eph");
    let a = seal(&recip.node_id(), b"x").unwrap();
    let b = seal(&recip.node_id(), b"x").unwrap();
    assert_ne!(a.epk, b.epk);
    assert_ne!(a.ciphertext, b.ciphertext);
    assert_eq!(open(&recip.secret_bytes(), &a).unwrap(), b"x");
    assert_eq!(open(&recip.secret_bytes(), &b).unwrap(), b"x");
}

#[test]
fn an_id_off_the_curve_is_no_key() {
    let mut off = [0u8; 32];
    off[0] = 2;
    assert_eq!(x25519_public_from_node_id(&off), Err(MailError::NotAKey));
    assert_eq!(seal(&off, b"x").err(), Some(MailError::NotAKey));
}

#[test]
fn the_secret_is_the_clamped_first_half_of_sha512() {
    let secret = [7u8; 32];
    let h = Sha512::digest(secret);
    let mut expected = [0u8; 32];
    expected.copy_from_slice(&h[..32]);
    expected[0] &= 248;
    expected[31] &= 127;
    expected[31] |= 64;
    assert_eq!(x25519_secret_from_ed25519(&secret), expected);
}

#[test]
fn sealing_with_a_seed_is_the_cipher_under_the_derived_key() {
    let recip = id("fixed");
    let seed = [3u8; 32];
    let nonce = [9u8; 12];
    let sealed = seal_with(&recip.node_id(), &seed, &nonce, b"plain").unwrap();
    let mut secret = seed;
    secret[0] &= 248;
    secret[31] &= 127;
    secret[31] |= 64;
    let scalar = Scalar::from_bytes_mod_order(secret);
    let epk = MontgomeryPoint::mul_base(&scalar).to_bytes();
    let public = x25519_public_from_node_id(&recip.node_id()).unwrap();
    let shared = (MontgomeryPoint(public) * scalar).to_bytes();
    let mut h = Sha256::new();
    h.update(KDF_DOMAIN.as_bytes());
    h.update(shared);
    h.update(epk);
    let key = h.finalize();
    let cipher = ChaCha20Poly1305::new(Key::from_slice(&key));
    let ciphertext = cipher.encrypt(Nonce::from_slice(&nonce), b"plain".as_slice()).unwrap();
    assert_eq!(sealed.epk, epk);
    assert_eq!(sealed.nonce, nonce);
    assert_eq!(sealed.ciphertext, ciphertext);
    assert_eq!(sealed.ciphertext.len(), 5 + 16);
    assert_eq!(open(&recip.secret_bytes(), &sealed).unwrap(), b"plain");
    assert_eq!(seal_with(&recip.node_id(), &seed, &nonce, b"plain").unwrap(), sealed);
}

#[test]
fn a_sealed_body_encodes_as_three_length_prefixed_fields() {
    let s = SealedBody { epk: vec![1], nonce: vec![2, 3], ciphertext: vec![] };
    let mut expected: Vec<u8> = Vec::new();
    expected.extend_from_slice(&[1, 0, 0, 0, 0, 0, 0, 0, 1]);
    expected.extend_from_slice(&[2, 0, 0, 0, 0, 0, 0, 0, 2, 3]);
    expected.extend_from_slice(&[0, 0, 0, 0, 0, 0, 0, 0]);
    assert_eq!(encode_sealed(&s), expected);
}

#[test]
fn a_ciphertext_shorter_than_the_tag_does_not_open() {
    let recip = id("short");
    let mut sealed = seal(&recip.node_id(), b"important").unwrap();
    sealed.ciphertext.truncate(15);
    assert_eq!(open(&recip.secret_bytes(), &sealed), Err(MailError::OpenFailed));
    sealed.ciphertext.clear();
    assert_eq!(open(&recip.secret_bytes(), &sealed), Err(MailError::OpenFailed));
}

#[test]
fn a_body_changed_in_any_byte_does_not_open() {
    let recip = id("bytes");
    let sealed = seal_with(&recip.node_id(), &[3; 32], &[5; 12], b"every byte counts").unwrap();
    assert_eq!(open(&recip.secret_bytes(), &sealed).unwrap(), b"every byte counts");
    for i in 0..sealed.ciphertext.len() {
        let mut changed = sealed.clone();
        changed.ciphertext[i] ^= 1;
        assert_eq!(open(&recip.secret_bytes(), &changed), Err(MailError::OpenFailed));
    }
    for i in 0..12 {
        let mut changed = sealed.clone();
        changed.nonce[i] ^= 1;
        assert_eq!(open(&recip.secret_bytes(), &changed), Err(MailError::OpenFailed));
    }
    assert_eq!(open(&id("other").secret_bytes(), &sealed), Err(MailError::OpenFailed));
}

#[test]
fn sealing_again_what_was_opened_gives_the_same_body() {
    let recip = id("exact");
    let sealed = seal_with(&recip.node_id(), &[7; 32], &[9; 12], b"again").unwrap();
    let plaintext = open(&recip.secret_bytes(), &sealed).unwrap();
    assert_eq!(seal_with(&recip.node_id(), &[7; 32], &[9; 12], &plaintext).unwrap(), sealed);
    let other = seal_with(&recip.node_id(), &[7; 32], &[9; 12], b"Again").unwrap();
    assert_ne!(other.ciphertext, sealed.ciphertext);
    assert_eq!(open(&recip.secret_bytes(), &other).unwrap(), b"Again");
}
