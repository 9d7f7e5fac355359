use ce_mail::digest::NodeId;
use ce_mail::envelope::{Envelope, EnvelopeBody};
use ce_mail::mailbox::{MailboxStore, ABILITY_ACCEPT};
use ce_mail::proto::{Grant, MailReply, MailRequest, MAIL_TOPIC};
use ce_mail::serve::{
    at_least, is_revoked, request_mutates, Inbound, MailboxServer, MAX_BACKOFF_MS,
    MIN_POLL_MS, MIN_REFRESH_SECS,
};
use ce_mail::service::MailService;
use ed25519_dalek::{Signature, Signer, SigningKey, Verifier, VerifyingKey};
use sha2::{Digest, Sha256};

/// A node whose key is made of a tag.
struct Node {
    key: SigningKey,
}

impl Node {
    fn node_id(&self) -> NodeId {
        self.key.verifying_key().to_bytes()
    }

    fn node_id_hex(&self) -> String {
        hex::encode(self.node_id())
    }

    fn sign(&self, message: &[u8]) -> [u8; 64] {
        self.key.sign(message).to_bytes()
    }
}

fn id(tag: &str) -> Node {
    let seed: [u8; 32] = Sha256::digest(tag.as_bytes()).into();
    Node { key: SigningKey::from_bytes(&seed) }
}

fn check(node: &NodeId, message: &[u8], sig: &[u8; 64]) -> bool {
    match VerifyingKey::from_bytes(node) {
        Ok(key) => key.verify(message, &Signature::from_bytes(sig)).is_ok(),
        Err(_) => false,
    }
}

fn seal_as(sender: &Node, body: EnvelopeBody) -> Envelope {
    Envelope::seal(&sender.node_id(), &|m: &[u8]| sender.sign(m), body)
}

/// A capability chain of one link: the issuer lets the audience accept mail for it.
fn grant_with_nonce(issuer: &Node, audience: &Node, nonce: u64) -> Grant {
    let mut link: Vec<u8> = Vec::new();
    link.extend_from_slice(&issuer.node_id());
    link.extend_from_slice(&audience.node_id());
    link.extend_from_slice(&nonce.to_le_bytes());
    link.extend_from_slice(ABILITY_ACCEPT.as_bytes());
    let sig = issuer.sign(&link);
    let mut chain: Vec<u8> = 1u64.to_le_bytes().to_vec();
    chain.extend_from_slice(&sig);
    chain.extend_from_slice(&link);
    Grant { chain }
}

fn accept_grant(issuer: &Node, audience: &Node) -> Grant {
    grant_with_nonce(issuer, audience, 1)
}

fn authorize_unless(
    recipient: &NodeId,
    presenter: &NodeId,
    ability: &str,
    grant: &Grant,
    is_revoked: &dyn Fn(&NodeId, u64) -> bool,
) -> Result<(), String> {
    let bytes = &grant.chain;
    if bytes.len() < 8 || bytes[..8] == [0u8; 8] {
        return Err("empty capability chain".to_string());
    }
    let mut sig = [0u8; 64];
    sig.copy_from_slice(&bytes[8..72]);
    let link = &bytes[72..];
    let mut nonce = [0u8; 8];
    nonce.copy_from_slice(&link[64..72]);
    if link[..32] != recipient[..] {
        return Err("chain is not rooted at the recipient".to_string());
    }
    if link[32..64] != presenter[..] {
        return Err("chain is for another audience".to_string());
    }
    if &link[72..] != ability.as_bytes() {
        return Err("ability is not granted".to_string());
    }
    if is_revoked(recipient, u64::from_le_bytes(nonce)) {
        return Err("capability was revoked".to_string());
    }
    if !check(recipient, link, &sig) {
        return Err("capability is forged".to_string());
    }
    Ok(())
}

fn authorize(
    recipient: &NodeId,
    presenter: &NodeId,
    ability: &str,
    grant: &Grant,
    _now: u64,
) -> Result<(), String> {
    authorize_unless(recipient, presenter, ability, grant, &|_: &NodeId, _: u64| false)
}

fn readable(grant: &Grant) -> bool {
    grant.chain.len() >= 8
}

fn server(mailbox: &Node, poll_ms: u64) -> MailboxServer {
    MailboxServer::new(MailService::new(MailboxStore::new(mailbox.node_id(), 10)), poll_ms)
}

fn inbound(from: &Node, request: &MailRequest) -> Inbound {
    Inbound {
        topic: MAIL_TOPIC.to_string(),
        from: from.node_id_hex(),
        reply_token: Some(77),
        payload: Some(request.encode()),
    }
}

fn deliver(sender: &Node, recipient: &Node, mailbox: &Node) -> MailRequest {
    let envelope = seal_as(
        sender,
        EnvelopeBody {
            from: String::new(),
            to: recipient.node_id_hex(),
            subject: "s".into(),
            body_cid: String::new(),
            attachment_cids: vec![],
            in_reply_to: String::new(),
            sent_at: 1,
            postage_receipt: String::new(),
        },
    );
    MailRequest::Deliver { envelope, grant: accept_grant(recipient, mailbox) }
}

#[test]
fn a_failed_poll_waits_twice_as_long_up_to_a_limit() {
    let mut s = server(&id("poll"), 10_000);
    assert_eq!(s.poll_failed(), 10_000);
    assert_eq!(s.poll_failed(), 20_000);
    assert_eq!(s.poll_failed(), MAX_BACKOFF_MS);
    assert_eq!(s.poll_failed(), MAX_BACKOFF_MS);
    s.poll_succeeded();
    assert_eq!(s.poll_failed(), 10_000);
    let mut slow = server(&id("poll"), 60_000);
    assert_eq!(slow.poll_failed(), 60_000);
    assert_eq!(slow.poll_failed(), MAX_BACKOFF_MS);
}

#[test]
fn an_accepted_delivery_is_answered_and_saved_once() {
    let mailbox = id("srv-mb");
    let sender = id("srv-sn");
    let recipient = id("srv-rc");
    let mut s = server(&mailbox, 500);
    assert_eq!(s.end_batch(), None);
    let msg = inbound(&sender, &deliver(&sender, &recipient, &mailbox));
    let (token, bytes) = s.message(msg, 5, &readable, &authorize, &check).unwrap();
    assert_eq!(token, 77);
    assert!(matches!(
        MailReply::decode(&bytes),
        Ok(MailReply::Delivered { duplicate: false })
    ));
    let saved = s.end_batch().unwrap();
    let loaded = MailboxStore::from_bytes(&saved).unwrap();
    assert_eq!(loaded.pending_count(&recipient.node_id_hex()), 1);
    assert_eq!(s.end_batch(), None);
    assert_eq!(s.service().store().pending_count(&recipient.node_id_hex()), 1);
}

#[test]
fn refusals_and_reads_are_answered_but_not_saved() {
    let mailbox = id("ro-mb");
    let sender = id("ro-sn");
    let recipient = id("ro-rc");
    let mut s = server(&mailbox, 500);
    let refused = match deliver(&sender, &recipient, &mailbox) {
        MailRequest::Deliver { envelope, .. } => {
            MailRequest::Deliver { envelope, grant: Grant::none() }
        }
        other => other,
    };
    let (_, bytes) =
        s.message(inbound(&sender, &refused), 5, &readable, &authorize, &check).unwrap();
    assert!(matches!(MailReply::decode(&bytes), Ok(MailReply::Error { .. })));
    let read = MailRequest::Drain {
        recipient: recipient.node_id_hex(),
        since: 0,
        grant: Grant::none(),
    };
    assert!(s.message(inbound(&recipient, &read), 5, &readable, &authorize, &check).is_some());
    assert_eq!(s.end_batch(), None);
}

#[test]
fn what_is_no_request_is_ignored() {
    let mailbox = id("ign-mb");
    let who = id("ign-who");
    let mut s = server(&mailbox, 500);
    let read = MailRequest::Drain {
        recipient: who.node_id_hex(),
        since: 0,
        grant: Grant::none(),
    };
    let good = || inbound(&who, &read);
    let ignored = vec![
        Inbound { topic: "other".into(), ..good() },
        Inbound { reply_token: None, ..good() },
        Inbound { from: "zz".into(), ..good() },
        Inbound { payload: None, ..good() },
        Inbound { payload: Some(vec![9, 9]), ..good() },
    ];
    for msg in ignored {
        assert!(s.message(msg, 5, &readable, &authorize, &check).is_none());
    }
    assert!(s.message(good(), 5, &|_: &Grant| false, &authorize, &check).is_none());
    assert!(s.message(good(), 5, &readable, &authorize, &check).is_some());
}

#[test]
fn only_reads_leave_the_mailbox_alone() {
    let who = id("mut");
    let g = Grant::none;
    assert!(request_mutates(&deliver(&who, &who, &who)));
    assert!(request_mutates(&MailRequest::Ack { recipient: "r".into(), cursor: 1, grant: g() }));
    assert!(request_mutates(&MailRequest::CollectReceipts { sender: "s".into(), grant: g() }));
    assert!(!request_mutates(&MailRequest::Drain {
        recipient: "r".into(),
        since: 0,
        grant: g()
    }));
    assert!(!request_mutates(&MailRequest::DrainPage {
        recipient: "r".into(),
        since: 0,
        limit: 1,
        grant: g()
    }));
}

#[test]
fn a_revocation_names_issuer_and_nonce() {
    let issuer = id("rev");
    let revoked = vec![("zz".to_string(), 1), (issuer.node_id_hex(), 7)];
    assert!(is_revoked(&revoked, &issuer.node_id(), 7));
    assert!(!is_revoked(&revoked, &issuer.node_id(), 1));
    assert!(!is_revoked(&revoked, &id("rev-other").node_id(), 7));
}

#[test]
fn intervals_have_a_floor() {
    assert_eq!(at_least(1, MIN_POLL_MS), 50);
    assert_eq!(at_least(51, MIN_POLL_MS), 51);
    assert_eq!(at_least(0, MIN_REFRESH_SECS), 5);
}
