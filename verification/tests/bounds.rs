use ce_mail::digest::NodeId;
use ce_mail::envelope::{Envelope, EnvelopeBody};
use ce_mail::error::{MailError, Measured};
use ce_mail::limits::Limits;
use ed25519_dalek::{Signer, SigningKey};
use sha2::{Digest, Sha256};

/// A node whose key is made of a tag.
struct Node {
    key: SigningKey,
}

impl Node {
    fn node_id(&self) -> NodeId {
        self.key.verifying_key().to_bytes()
    }

    fn node_id_hex(&self) -> String {
        hex::encode(self.node_id())
    }

    fn sign(&self, message: &[u8]) -> [u8; 64] {
        self.key.sign(message).to_bytes()
    }
}

fn id(tag: &str) -> Node {
    let seed: [u8; 32] = Sha256::digest(tag.as_bytes()).into();
    Node { key: SigningKey::from_bytes(&seed) }
}

fn seal_as(sender: &Node, body: EnvelopeBody) -> Envelope {
    Envelope::seal(&sender.node_id(), &|m: &[u8]| sender.sign(m), body)
}

fn body(to: &str) -> EnvelopeBody {
    EnvelopeBody {
        from: String::new(),
        to: to.to_string(),
        subject: "ok".into(),
        body_cid: "ab".repeat(32),
        attachment_cids: vec![],
        in_reply_to: String::new(),
        sent_at: 1,
        postage_receipt: String::new(),
    }
}

#[test]
fn default_envelope_passes() {
    let s = id("ok-s");
    let r = id("ok-r");
    let env = seal_as(&s, body(&r.node_id_hex()));
    assert!(Limits::default().check_envelope(&env).is_ok());
}

#[test]
fn oversized_subject_rejected() {
    let s = id("subj-s");
    let r = id("subj-r");
    let mut b = body(&r.node_id_hex());
    b.subject = "x".repeat(5000);
    let env = seal_as(&s, b);
    assert!(Limits::default().check_envelope(&env).is_err());
    assert_eq!(
        Limits::default().check_envelope(&env),
        Err(MailError::TooLarge { what: Measured::Subject, size: 5000, limit: 4096 })
    );
}

#[test]
fn too_many_attachments_rejected() {
    let s = id("att-s");
    let r = id("att-r");
    let mut b = body(&r.node_id_hex());
    b.attachment_cids = (0..1000).map(|_| "cd".repeat(32)).collect();
    let env = seal_as(&s, b);
    assert!(Limits::default().check_envelope(&env).is_err());
    assert_eq!(
        Limits::default().check_envelope(&env),
        Err(MailError::TooManyAttachments { count: 1000, limit: 64 })
    );
}

#[test]
fn oversized_cid_rejected() {
    let s = id("cid-s");
    let r = id("cid-r");
    let mut b = body(&r.node_id_hex());
    b.body_cid = "a".repeat(1000);
    let env = seal_as(&s, b);
    assert!(Limits::default().check_envelope(&env).is_err());
    assert_eq!(
        Limits::default().check_envelope(&env),
        Err(MailError::TooLarge { what: Measured::BodyCid, size: 1000, limit: 256 })
    );
}

#[test]
fn oversized_postage_rejected() {
    let s = id("post-s");
    let r = id("post-r");
    let mut b = body(&r.node_id_hex());
    b.postage_receipt = "z".repeat(2048);
    let env = seal_as(&s, b);
    assert!(Limits::default().check_envelope(&env).is_err());
    assert_eq!(
        Limits::default().check_envelope(&env),
        Err(MailError::TooLarge { what: Measured::PostageReceipt, size: 2048, limit: 1024 })
    );
}

#[test]
fn clamp_page_bounds_both_ends() {
    let l = Limits::default();
    assert_eq!(l.clamp_page(0), 1);
    assert_eq!(l.clamp_page(10), 10);
    assert_eq!(l.clamp_page(usize::MAX), l.max_page);
}

#[test]
fn sizes_are_counted_in_bytes_and_the_limit_itself_passes() {
    let s = id("edge-s");
    let mut b = body("to");
    b.subject = "\u{e9}".repeat(2048);
    assert_eq!(Limits::default().check_envelope(&seal_as(&s, b)), Ok(()));
    let mut b = body("to");
    b.subject = format!("{}x", "\u{e9}".repeat(2048));
    assert_eq!(
        Limits::default().check_envelope(&seal_as(&s, b)),
        Err(MailError::TooLarge { what: Measured::Subject, size: 4097, limit: 4096 })
    );
}

#[test]
fn every_measured_field_has_its_error() {
    let s = id("each-s");
    let mut b = body("to");
    b.in_reply_to = "r".repeat(257);
    assert_eq!(
        Limits::default().check_envelope(&seal_as(&s, b)),
        Err(MailError::TooLarge { what: Measured::InReplyTo, size: 257, limit: 256 })
    );
    let mut b = body("to");
    b.attachment_cids = vec!["a".into(), "b".repeat(300)];
    assert_eq!(
        Limits::default().check_envelope(&seal_as(&s, b)),
        Err(MailError::TooLarge { what: Measured::AttachmentCid(1), size: 300, limit: 256 })
    );
    let b = body(&"t".repeat(300_000));
    let env = seal_as(&s, b);
    let size = env.encode().len();
    assert_eq!(
        Limits::default().check_envelope(&env),
        Err(MailError::TooLarge { what: Measured::Envelope, size, limit: 262_144 })
    );
}

#[test]
fn the_first_field_that_is_too_large_is_reported() {
    let s = id("first-s");
    let mut b = body("to");
    b.subject = "x".repeat(5000);
    b.body_cid = "a".repeat(1000);
    b.attachment_cids = (0..65).map(|_| String::new()).collect();
    assert_eq!(
        Limits::default().check_envelope(&seal_as(&s, b)),
        Err(MailError::TooLarge { what: Measured::Subject, size: 5000, limit: 4096 })
    );
}

#[test]
fn defaults_are_as_documented() {
    let l = Limits::default();
    assert_eq!(l.max_attachment_bytes, 40 * 1024 * 1024);
    assert_eq!(l.max_body_bytes, 25 * 1024 * 1024);
    assert_eq!(l.max_page, 500);
}
