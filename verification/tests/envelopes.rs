use ce_mail::digest::NodeId;
use ce_mail::envelope::{
    envelope_signing_bytes, message_id, parse_node_id, Envelope, EnvelopeBody, ENVELOPE_DOMAIN,
};
use ce_mail::error::{Format, MailError, NodeIdError, SignatureError};
use ed25519_dalek::{Signature, Signer, SigningKey, Verifier, VerifyingKey};
use sha2::{Digest, Sha256};

/// A node whose key is made of a tag.
struct Node {
    key: SigningKey,
}

impl Node {
    fn node_id(&self) -> NodeId {
        self.key.verifying_key().to_bytes()
    }

    fn node_id_hex(&self) -> String {
        hex::encode(self.node_id())
    }

    #[allow(dead_code)]
    fn secret_bytes(&self) -> [u8; 32] {
        self.key.to_bytes()
    }

    fn sign(&self, message: &[u8]) -> [u8; 64] {
        self.key.sign(message).to_bytes()
    }
}

fn id(tag: &str) -> Node {
    let seed: [u8; 32] = Sha256::digest(tag.as_bytes()).into();
    Node { key: SigningKey::from_bytes(&seed) }
}

fn check(node: &NodeId, message: &[u8], sig: &[u8; 64]) -> bool {
    match VerifyingKey::from_bytes(node) {
        Ok(key) => key.verify(message, &Signature::from_bytes(sig)).is_ok(),
        Err(_) => false,
    }
}

fn seal_as(sender: &Node, body: EnvelopeBody) -> Envelope {
    Envelope::seal(&sender.node_id(), &|m: &[u8]| sender.sign(m), body)
}

fn sample_body(to: &str) -> EnvelopeBody {
    EnvelopeBody {
        from: String::new(),
        to: to.to_string(),
        subject: "hello".into(),
        body_cid: "ab".repeat(32),
        attachment_cids: vec!["cd".repeat(32)],
        in_reply_to: String::new(),
        sent_at: 1_700_000_000,
        postage_receipt: String::new(),
    }
}

#[test]
fn seal_sets_from_and_verifies() {
    let sender = id("s1");
    let recip = id("r1");
    let env = seal_as(&sender, sample_body(&recip.node_id_hex()));
    assert_eq!(env.body.from, sender.node_id_hex());
    assert!(env.verify(&check).is_ok());
}

#[test]
fn envelope_encode_decode_roundtrip() {
    let sender = id("s2");
    let recip = id("r2");
    let env = seal_as(&sender, sample_body(&recip.node_id_hex()));
    let bytes = env.encode();
    let back = Envelope::decode(&bytes).unwrap();
    assert_eq!(env.body, back.body);
    assert_eq!(env.sig, back.sig);
    assert!(back.verify(&check).is_ok());
}

#[test]
fn message_id_is_stable_and_hex() {
    let sender = id("s3");
    let recip = id("r3");
    let env = seal_as(&sender, sample_body(&recip.node_id_hex()));
    let mid = env.message_id();
    assert_eq!(mid.len(), 64);
    assert!(mid.chars().all(|c| c.is_ascii_hexdigit()));
    assert_eq!(mid, env.message_id());
}

#[test]
fn tampered_subject_fails_verification() {
    let sender = id("s4");
    let recip = id("r4");
    let mut env = seal_as(&sender, sample_body(&recip.node_id_hex()));
    env.body.subject = "MALICIOUS".into();
    assert!(env.verify(&check).is_err());
    assert_eq!(env.verify(&check), Err(MailError::Envelope(SignatureError::Forged)));
}

#[test]
fn forged_from_fails_verification() {
    let sender = id("s5");
    let victim = id("victim");
    let recip = id("r5");
    let mut env = seal_as(&sender, sample_body(&recip.node_id_hex()));
    env.body.from = victim.node_id_hex();
    assert!(env.verify(&check).is_err());
}

#[test]
fn envelope_decode_rejects_garbage() {
    assert!(Envelope::decode(&[0x00, 0x01, 0x02]).is_err());
    assert_eq!(
        Envelope::decode(&[0x00, 0x01, 0x02]).err(),
        Some(MailError::Malformed(Format::Envelope))
    );
}

#[test]
fn verify_rejects_bad_from_hex() {
    let sender = id("s6");
    let recip = id("r6");
    let mut env = seal_as(&sender, sample_body(&recip.node_id_hex()));
    env.body.from = "not-hex".into();
    assert!(env.verify(&check).is_err());
    assert_eq!(
        env.verify(&check),
        Err(MailError::Envelope(SignatureError::Signer(NodeIdError::NotHex)))
    );
}

#[test]
fn parse_node_id_validates_length() {
    assert!(parse_node_id(&"ab".repeat(32)).is_ok());
    assert!(parse_node_id("abcd").is_err());
    assert!(parse_node_id("zz").is_err());
}

#[test]
fn distinct_content_yields_distinct_ids() {
    let sender = id("s7");
    let recip = id("r7");
    let a = seal_as(&sender, sample_body(&recip.node_id_hex()));
    let mut b2 = sample_body(&recip.node_id_hex());
    b2.subject = "different".into();
    let b = seal_as(&sender, b2);
    assert_ne!(a.message_id(), b.message_id());
}

#[test]
fn parse_node_id_reads_either_case_and_says_what_is_wrong() {
    assert_eq!(parse_node_id(&"aB".repeat(32)), Ok([0xab; 32]));
    assert_eq!(parse_node_id(&format!(" \t{}\n", "ab".repeat(32))), Ok([0xab; 32]));
    assert_eq!(parse_node_id("abcd"), Err(MailError::NodeId(NodeIdError::WrongLength)));
    assert_eq!(parse_node_id(""), Err(MailError::NodeId(NodeIdError::WrongLength)));
    assert_eq!(parse_node_id("zz"), Err(MailError::NodeId(NodeIdError::NotHex)));
    assert_eq!(parse_node_id("abc"), Err(MailError::NodeId(NodeIdError::NotHex)));
    assert_eq!(parse_node_id("\u{e9}"), Err(MailError::NodeId(NodeIdError::NotHex)));
}

fn text(out: &mut Vec<u8>, s: &str) {
    out.extend_from_slice(&(s.len() as u64).to_le_bytes());
    out.extend_from_slice(s.as_bytes());
}

#[test]
fn the_signed_bytes_are_the_domain_and_every_field() {
    let body = EnvelopeBody {
        from: "f".into(),
        to: "t\u{e9}".into(),
        subject: "s".into(),
        body_cid: "b".into(),
        attachment_cids: vec!["x".into(), "yz".into()],
        in_reply_to: "r".into(),
        sent_at: 258,
        postage_receipt: "p".into(),
    };
    let mut expected: Vec<u8> = Vec::new();
    text(&mut expected, ENVELOPE_DOMAIN);
    for s in ["f", "t\u{e9}", "s", "b"] {
        text(&mut expected, s);
    }
    expected.extend_from_slice(&2u64.to_le_bytes());
    text(&mut expected, "x");
    text(&mut expected, "yz");
    text(&mut expected, "r");
    expected.extend_from_slice(&258u64.to_le_bytes());
    text(&mut expected, "p");
    assert_eq!(envelope_signing_bytes(&body), expected);
    assert_eq!(message_id(&body), hex::encode(Sha256::digest(&expected)));
}

#[test]
fn an_encoded_envelope_is_the_fields_and_then_the_signature() {
    let env = seal_as(&id("enc-s"), sample_body("to"));
    let bytes = env.encode();
    assert_eq!(bytes.len(), env.encoded_len());
    assert_eq!(env.try_encode().unwrap(), bytes);
    assert_eq!(&bytes[..8], &64u64.to_le_bytes());
    assert_eq!(&bytes[8..72], env.body.from.as_bytes());
    let after = bytes.len() - 64;
    assert_eq!(&bytes[after - 8..after], &64u64.to_le_bytes());
    assert_eq!(&bytes[after..], &env.sig);
    for n in [0, 7, 8, 71, after, bytes.len() - 1] {
        assert!(Envelope::decode(&bytes[..n]).is_err());
    }
}

#[test]
fn different_fields_are_signed_differently() {
    let mut a = sample_body("to");
    a.from = "ab".into();
    a.to = "c".into();
    let mut b = a.clone();
    b.from = "a".into();
    b.to = "bc".into();
    assert_ne!(envelope_signing_bytes(&a), envelope_signing_bytes(&b));
    assert_ne!(message_id(&a), message_id(&b));
    assert_eq!(message_id(&a), message_id(&a.clone()));
}

#[test]
fn attachments_are_counted() {
    let mut body = sample_body("to");
    body.attachment_cids = vec![String::new(), String::new(), String::new()];
    assert_eq!(seal_as(&id("cnt"), body).attachment_count(), 3);
}

#[test]
fn a_signature_is_refused_on_contents_changed_in_any_field() {
    let sender = id("change");
    let other = id("change-other");
    let sealed = seal_as(&sender, sample_body(&other.node_id_hex()));
    assert_eq!(sealed.verify(&check), Ok(()));
    let changes: Vec<Box<dyn Fn(&mut EnvelopeBody)>> = vec![
        Box::new(|b| b.from = other.node_id_hex()),
        Box::new(|b| b.from = b.from.to_uppercase()),
        Box::new(|b| b.to = sender.node_id_hex()),
        Box::new(|b| b.subject.push('!')),
        Box::new(|b| b.body_cid.clear()),
        Box::new(|b| b.attachment_cids.clear()),
        Box::new(|b| b.in_reply_to = "ef".repeat(32)),
        Box::new(|b| b.sent_at += 1),
        Box::new(|b| b.postage_receipt = "paid".to_string()),
    ];
    for change in &changes {
        let mut changed = sealed.clone();
        change(&mut changed.body);
        assert_eq!(changed.verify(&check), Err(MailError::Envelope(SignatureError::Forged)));
    }
}
