use ce_mail::digest::NodeId;
use ce_mail::envelope::{Envelope, EnvelopeBody};
use ce_mail::error::{Format, MailError};
use ce_mail::proto::{Grant, MailReply, MailRequest};
use ce_mail::receipt::{Receipt, ReceiptKind};
use ed25519_dalek::{Signature, Signer, SigningKey, Verifier, VerifyingKey};
use sha2::{Digest, Sha256};

/// A node whose key is made of a tag.
struct Node {
    key: SigningKey,
}

impl Node {
    fn node_id(&self) -> NodeId {
        self.key.verifying_key().to_bytes()
    }

    fn node_id_hex(&self) -> String {
        hex::encode(self.node_id())
    }

    fn sign(&self, message: &[u8]) -> [u8; 64] {
        self.key.sign(message).to_bytes()
    }
}

fn id(tag: &str) -> Node {
    let seed: [u8; 32] = Sha256::digest(tag.as_bytes()).into();
    Node { key: SigningKey::from_bytes(&seed) }
}

fn check(node: &NodeId, message: &[u8], sig: &[u8; 64]) -> bool {
    match VerifyingKey::from_bytes(node) {
        Ok(key) => key.verify(message, &Signature::from_bytes(sig)).is_ok(),
        Err(_) => false,
    }
}

fn seal_as(sender: &Node, body: EnvelopeBody) -> Envelope {
    Envelope::seal(&sender.node_id(), &|m: &[u8]| sender.sign(m), body)
}

fn env(sender: &Node, to: &str) -> Envelope {
    seal_as(
        sender,
        EnvelopeBody {
            from: String::new(),
            to: to.to_string(),
            subject: "s".into(),
            body_cid: "ab".repeat(32),
            attachment_cids: vec![],
            in_reply_to: String::new(),
            sent_at: 1,
            postage_receipt: String::new(),
        },
    )
}

#[test]
fn deliver_request_roundtrip() {
    let s = id("p1");
    let r = id("p1r");
    let req =
        MailRequest::Deliver { envelope: env(&s, &r.node_id_hex()), grant: Grant::none() };
    let back = MailRequest::decode(&req.encode()).unwrap();
    match back {
        MailRequest::Deliver { envelope, grant } => {
            assert!(envelope.verify(&check).is_ok());
            assert_eq!(grant, Grant::none());
        }
        _ => panic!("wrong variant"),
    }
}

#[test]
fn drain_request_roundtrip() {
    let req =
        MailRequest::Drain { recipient: "ab".repeat(32), since: 7, grant: Grant::none() };
    let back = MailRequest::decode(&req.encode()).unwrap();
    match back {
        MailRequest::Drain { recipient, since, .. } => {
            assert_eq!(recipient, "ab".repeat(32));
            assert_eq!(since, 7);
        }
        _ => panic!("wrong variant"),
    }
}

#[test]
fn ack_request_roundtrip() {
    let req = MailRequest::Ack { recipient: "cd".repeat(32), cursor: 3, grant: Grant::none() };
    let back = MailRequest::decode(&req.encode()).unwrap();
    assert!(matches!(back, MailRequest::Ack { cursor: 3, .. }));
}

#[test]
fn reply_variants_roundtrip() {
    for r in [
        MailReply::Delivered { duplicate: false },
        MailReply::Delivered { duplicate: true },
        MailReply::Drained { envelopes: vec![], cursor: 5 },
        MailReply::Page { envelopes: vec![], cursor: 3, more: true },
        MailReply::Acked { removed: 2 },
        MailReply::ReceiptAccepted { duplicate: false },
        MailReply::Receipts { receipts: vec![] },
        MailReply::Error { message: "nope".into() },
    ] {
        let back = MailReply::decode(&r.encode()).unwrap();
        assert_eq!(format!("{back:?}"), format!("{r:?}"));
    }
}

#[test]
fn drain_page_request_roundtrip() {
    let req = MailRequest::DrainPage {
        recipient: "ab".repeat(32),
        since: 2,
        limit: 10,
        grant: Grant::none(),
    };
    let back = MailRequest::decode(&req.encode()).unwrap();
    match back {
        MailRequest::DrainPage { recipient, since, limit, .. } => {
            assert_eq!(recipient, "ab".repeat(32));
            assert_eq!(since, 2);
            assert_eq!(limit, 10);
        }
        _ => panic!("wrong variant"),
    }
}

#[test]
fn put_receipt_request_roundtrip() {
    let recip = id("p-rcpt");
    let receipt = Receipt::issue(
        &recip.node_id(),
        &|m: &[u8]| recip.sign(m),
        &"ab".repeat(32),
        ReceiptKind::Read,
        9,
    );
    let req = MailRequest::PutReceipt {
        for_sender: "cd".repeat(32),
        receipt: receipt.clone(),
        grant: Grant::none(),
    };
    let back = MailRequest::decode(&req.encode()).unwrap();
    match back {
        MailRequest::PutReceipt { for_sender, receipt: r, .. } => {
            assert_eq!(for_sender, "cd".repeat(32));
            assert_eq!(r, receipt);
            assert!(r.verify(&check).is_ok());
        }
        _ => panic!("wrong variant"),
    }
}

#[test]
fn collect_receipts_request_roundtrip() {
    let req = MailRequest::CollectReceipts { sender: "ef".repeat(32), grant: Grant::none() };
    let back = MailRequest::decode(&req.encode()).unwrap();
    assert!(matches!(back, MailRequest::CollectReceipts { .. }));
}

#[test]
fn proto_decode_rejects_garbage() {
    assert!(MailRequest::decode(&[0xff, 0xff, 0xff, 0xff]).is_err());
    assert!(MailReply::decode(&[0xff, 0xff, 0xff, 0xff]).is_err());
    assert_eq!(MailRequest::decode(&[]).err(), Some(MailError::Malformed(Format::MailRequest)));
    assert_eq!(MailReply::decode(&[]).err(), Some(MailError::Malformed(Format::MailReply)));
}

#[test]
fn a_request_is_its_number_its_fields_and_the_grant() {
    let grant = Grant { chain: vec![1, 0, 0, 0, 0, 0, 0, 0, 42] };
    let req = MailRequest::Drain { recipient: "ab".into(), since: 258, grant: grant.clone() };
    let mut expected: Vec<u8> = vec![1, 0, 0, 0];
    expected.extend_from_slice(&[2, 0, 0, 0, 0, 0, 0, 0, b'a', b'b']);
    expected.extend_from_slice(&[2, 1, 0, 0, 0, 0, 0, 0]);
    expected.extend_from_slice(&[1, 0, 0, 0, 0, 0, 0, 0, 42]);
    assert_eq!(req.encode(), expected);
    assert_eq!(req.try_encode().unwrap(), expected);
    assert_eq!(req.grant(), &grant);
    assert_eq!(MailRequest::decode(&expected).unwrap().grant(), &grant);
}

#[test]
fn an_empty_chain_is_eight_zero_bytes() {
    assert_eq!(Grant::none().chain, vec![0u8; 8]);
}

#[test]
fn a_reply_is_its_number_and_its_fields() {
    let page = MailReply::Page { envelopes: vec![], cursor: 3, more: true };
    let mut expected: Vec<u8> = vec![2, 0, 0, 0];
    expected.extend_from_slice(&[0u8; 8]);
    expected.extend_from_slice(&[3, 0, 0, 0, 0, 0, 0, 0]);
    expected.push(1);
    assert_eq!(page.encode(), expected);
    assert_eq!(page.try_encode().unwrap(), expected);
    *expected.last_mut().unwrap() = 2;
    assert!(MailReply::decode(&expected).is_err());
}

#[test]
fn a_full_reply_comes_back_whole() {
    let s = id("full-s");
    let envelopes = vec![env(&s, "a"), env(&s, "b")];
    let reply = MailReply::Drained { envelopes, cursor: 9 };
    match MailReply::decode(&reply.encode()).unwrap() {
        MailReply::Drained { envelopes, cursor } => {
            assert_eq!(cursor, 9);
            assert_eq!(envelopes.len(), 2);
            assert_eq!(envelopes[1].body.to, "b");
            assert!(envelopes[1].verify(&check).is_ok());
        }
        _ => panic!("wrong variant"),
    }
}

#[test]
fn a_grant_that_is_no_chain_makes_a_request_malformed_where_chains_are_looked_into() {
    let grant = Grant { chain: vec![1, 0, 0, 0, 0, 0, 0, 0, 42] };
    let req = MailRequest::Ack { recipient: "ab".into(), cursor: 4, grant: grant.clone() };
    let bytes = req.encode();
    let chain = |g: &Grant| g.chain.last() == Some(&42);
    let read = MailRequest::decode_readable(&bytes, &chain).unwrap();
    assert!(matches!(read, MailRequest::Ack { cursor: 4, .. }));
    assert_eq!(read.grant(), &grant);
    assert_eq!(
        MailRequest::decode_readable(&bytes, &|_: &Grant| false).err(),
        Some(MailError::Malformed(Format::MailRequest))
    );
    assert_eq!(
        MailRequest::decode_readable(&bytes[..9], &|_: &Grant| true).err(),
        Some(MailError::Malformed(Format::MailRequest))
    );
    assert!(MailRequest::decode(&bytes).is_ok());
}
