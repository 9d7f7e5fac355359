use ce_mail::digest::NodeId;
use ce_mail::envelope::{envelope_signing_bytes, EnvelopeBody};
use ce_mail::error::{Format, MailError, NodeIdError, SignatureError};
use ce_mail::receipt::{receipt_signing_bytes, Receipt, ReceiptKind, RECEIPT_DOMAIN};
use ed25519_dalek::{Signature, Signer, SigningKey, Verifier, VerifyingKey};
use sha2::{Digest, Sha256};

/// A node whose key is made of a tag.
struct Node {
    key: SigningKey,
}

impl Node {
    fn node_id(&self) -> NodeId {
        self.key.verifying_key().to_bytes()
    }

    fn node_id_hex(&self) -> String {
        hex::encode(self.node_id())
    }

    #[allow(dead_code)]
    fn secret_bytes(&self) -> [u8; 32] {
        self.key.to_bytes()
    }

    fn sign(&self, message: &[u8]) -> [u8; 64] {
        self.key.sign(message).to_bytes()
    }
}

fn id(tag: &str) -> Node {
    let seed: [u8; 32] = Sha256::digest(tag.as_bytes()).into();
    Node { key: SigningKey::from_bytes(&seed) }
}

fn check(node: &NodeId, message: &[u8], sig: &[u8; 64]) -> bool {
    match VerifyingKey::from_bytes(node) {
        Ok(key) => key.verify(message, &Signature::from_bytes(sig)).is_ok(),
        Err(_) => false,
    }
}

fn issue(by: &Node, message_id: &str, kind: ReceiptKind, at: u64) -> Receipt {
    Receipt::issue(&by.node_id(), &|m: &[u8]| by.sign(m), message_id, kind, at)
}

#[test]
fn issue_sets_by_and_verifies() {
    let recip = id("r1");
    let r = issue(&recip, &"ab".repeat(32), ReceiptKind::Delivered, 100);
    assert_eq!(r.body.by, recip.node_id_hex());
    assert!(r.verify(&check).is_ok());
}

#[test]
fn read_receipt_verifies() {
    let recip = id("r2");
    let r = issue(&recip, &"cd".repeat(32), ReceiptKind::Read, 200);
    assert_eq!(r.body.kind, ReceiptKind::Read);
    assert!(r.verify(&check).is_ok());
}

#[test]
fn receipt_encode_decode_roundtrip() {
    let recip = id("r3");
    let r = issue(&recip, &"ab".repeat(32), ReceiptKind::Read, 5);
    let back = Receipt::decode(&r.encode()).unwrap();
    assert_eq!(r, back);
    assert!(back.verify(&check).is_ok());
}

#[test]
fn tampered_message_id_fails_verification() {
    let recip = id("r4");
    let mut r = issue(&recip, &"ab".repeat(32), ReceiptKind::Delivered, 1);
    r.body.message_id = "ff".repeat(32);
    assert!(r.verify(&check).is_err());
    assert_eq!(r.verify(&check), Err(MailError::Receipt(SignatureError::Forged)));
}

#[test]
fn tampered_kind_fails_verification() {
    let recip = id("r5");
    let mut r = issue(&recip, &"ab".repeat(32), ReceiptKind::Delivered, 1);
    r.body.kind = ReceiptKind::Read;
    assert!(r.verify(&check).is_err());
}

#[test]
fn forged_by_fails_verification() {
    let recip = id("r6");
    let victim = id("r6-victim");
    let mut r = issue(&recip, &"ab".repeat(32), ReceiptKind::Read, 1);
    r.body.by = victim.node_id_hex();
    assert!(r.verify(&check).is_err());
}

#[test]
fn dedup_key_is_stable_and_distinguishes_kind() {
    let recip = id("r7");
    let d = issue(&recip, &"ab".repeat(32), ReceiptKind::Delivered, 1);
    let r = issue(&recip, &"ab".repeat(32), ReceiptKind::Read, 9);
    assert_ne!(d.dedup_key(), r.dedup_key());
    let d2 = issue(&recip, &"ab".repeat(32), ReceiptKind::Delivered, 999);
    assert_eq!(d.dedup_key(), d2.dedup_key());
}

#[test]
fn receipt_decode_rejects_garbage() {
    assert!(Receipt::decode(&[0x00, 0x01]).is_err());
    assert_eq!(Receipt::decode(&[]).err(), Some(MailError::Malformed(Format::Receipt)));
}

#[test]
fn verify_rejects_bad_by_hex() {
    let recip = id("r8");
    let mut r = issue(&recip, &"ab".repeat(32), ReceiptKind::Read, 1);
    r.body.by = "not-hex".into();
    assert!(r.verify(&check).is_err());
    assert_eq!(
        r.verify(&check),
        Err(MailError::Receipt(SignatureError::Signer(NodeIdError::NotHex)))
    );
    assert_eq!(r.by_node(), Err(MailError::NodeId(NodeIdError::NotHex)));
}

#[test]
fn the_key_names_message_kind_and_signer() {
    let recip = id("key");
    let d = issue(&recip, "mid", ReceiptKind::Delivered, 7);
    let r = issue(&recip, "mid", ReceiptKind::Read, 7);
    assert_eq!(d.dedup_key(), format!("mid:1:{}", recip.node_id_hex()));
    assert_eq!(r.dedup_key(), format!("mid:2:{}", recip.node_id_hex()));
    assert_eq!(d.by_node(), Ok(recip.node_id()));
}

fn text(out: &mut Vec<u8>, s: &str) {
    out.extend_from_slice(&(s.len() as u64).to_le_bytes());
    out.extend_from_slice(s.as_bytes());
}

#[test]
fn the_signed_bytes_of_a_receipt_are_its_domain_and_fields() {
    let recip = id("bytes");
    let r = issue(&recip, "mid", ReceiptKind::Read, 258);
    let mut expected: Vec<u8> = Vec::new();
    text(&mut expected, RECEIPT_DOMAIN);
    text(&mut expected, "mid");
    text(&mut expected, &recip.node_id_hex());
    expected.push(2);
    expected.extend_from_slice(&258u64.to_le_bytes());
    assert_eq!(receipt_signing_bytes(&r.body), expected);
    assert_eq!(r.sig, recip.sign(&expected));
}

#[test]
fn an_encoded_receipt_holds_the_kind_as_four_bytes() {
    let recip = id("encr");
    let r = issue(&recip, "m", ReceiptKind::Read, 3);
    let mut expected: Vec<u8> = Vec::new();
    text(&mut expected, "m");
    text(&mut expected, &recip.node_id_hex());
    expected.extend_from_slice(&[1, 0, 0, 0]);
    expected.extend_from_slice(&3u64.to_le_bytes());
    expected.extend_from_slice(&64u64.to_le_bytes());
    expected.extend_from_slice(&r.sig);
    assert_eq!(r.encode(), expected);
    expected[9 + 72] = 2;
    assert!(Receipt::decode(&expected).is_err());
}

#[test]
fn a_receipt_is_never_signed_as_an_envelope() {
    let r = issue(&id("apart"), "", ReceiptKind::Read, 3);
    let e = EnvelopeBody {
        from: r.body.message_id.clone(),
        to: r.body.by.clone(),
        subject: String::new(),
        body_cid: String::new(),
        attachment_cids: vec![],
        in_reply_to: String::new(),
        sent_at: 3,
        postage_receipt: String::new(),
    };
    assert_ne!(receipt_signing_bytes(&r.body), envelope_signing_bytes(&e));
}

#[test]
fn a_signature_is_refused_on_a_receipt_changed_in_any_field() {
    let recip = id("r-change");
    let other = id("r-change-other");
    let issued = issue(&recip, &"ab".repeat(32), ReceiptKind::Delivered, 7);
    let mut message = issued.clone();
    message.body.message_id = "cd".repeat(32);
    let mut by = issued.clone();
    by.body.by = other.node_id_hex();
    let mut kind = issued.clone();
    kind.body.kind = ReceiptKind::Read;
    let mut at = issued.clone();
    at.body.at = 8;
    for changed in [message, by, kind, at] {
        assert_eq!(changed.verify(&check), Err(MailError::Receipt(SignatureError::Forged)));
    }
    assert_eq!(issued.verify(&check), Ok(()));
}

#[test]
fn receipts_of_nodes_have_different_keys_even_if_message_ids_hold_colons() {
    let recip = id("r-colon");
    let plain = issue(&recip, "a", ReceiptKind::Delivered, 1);
    let colon = issue(&recip, "a:1", ReceiptKind::Delivered, 1);
    let nested = issue(&recip, &format!("a:1:{}", recip.node_id_hex()), ReceiptKind::Delivered, 1);
    assert_ne!(plain.dedup_key(), colon.dedup_key());
    assert_ne!(plain.dedup_key(), nested.dedup_key());
    assert_ne!(colon.dedup_key(), nested.dedup_key());
    assert_eq!(colon.dedup_key(), issue(&recip, "a:1", ReceiptKind::Delivered, 2).dedup_key());
}
