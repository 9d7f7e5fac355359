use ce_mail::digest::NodeId;
use ce_mail::envelope::{Envelope, EnvelopeBody};
use ce_mail::limits::Limits;
use ce_mail::mailbox::{MailboxStore, ABILITY_ACCEPT};
use ce_mail::proto::{Grant, MailReply, MailRequest};
use ce_mail::receipt::{Receipt, ReceiptKind};
use ce_mail::service::MailService;
use ed25519_dalek::{Signature, Signer, SigningKey, Verifier, VerifyingKey};
use sha2::{Digest, Sha256};

/// A node whose key is made of a tag.
struct Node {
    key: SigningKey,
}

impl Node {
    fn node_id(&self) -> NodeId {
        self.key.verifying_key().to_bytes()
    }

    fn node_id_hex(&self) -> String {
        hex::encode(self.node_id())
    }

    fn sign(&self, message: &[u8]) -> [u8; 64] {
        self.key.sign(message).to_bytes()
    }
}

fn id(tag: &str) -> Node {
    let seed: [u8; 32] = Sha256::digest(tag.as_bytes()).into();
    Node { key: SigningKey::from_bytes(&seed) }
}

fn check(node: &NodeId, message: &[u8], sig: &[u8; 64]) -> bool {
    match VerifyingKey::from_bytes(node) {
        Ok(key) => key.verify(message, &Signature::from_bytes(sig)).is_ok(),
        Err(_) => false,
    }
}

fn seal_as(sender: &Node, body: EnvelopeBody) -> Envelope {
    Envelope::seal(&sender.node_id(), &|m: &[u8]| sender.sign(m), body)
}

/// A capability chain of one link: the issuer lets the audience accept mail for it.
fn grant_with_nonce(issuer: &Node, audience: &Node, nonce: u64) -> Grant {
    let mut link: Vec<u8> = Vec::new();
    link.extend_from_slice(&issuer.node_id());
    link.extend_from_slice(&audience.node_id());
    link.extend_from_slice(&nonce.to_le_bytes());
    link.extend_from_slice(ABILITY_ACCEPT.as_bytes());
    let sig = issuer.sign(&link);
    let mut chain: Vec<u8> = 1u64.to_le_bytes().to_vec();
    chain.extend_from_slice(&sig);
    chain.extend_from_slice(&link);
    Grant { chain }
}

fn accept_grant(issuer: &Node, audience: &Node) -> Grant {
    grant_with_nonce(issuer, audience, 1)
}

fn authorize_unless(
    recipient: &NodeId,
    presenter: &NodeId,
    ability: &str,
    grant: &Grant,
    is_revoked: &dyn Fn(&NodeId, u64) -> bool,
) -> Result<(), String> {
    let bytes = &grant.chain;
    if bytes.len() < 8 || bytes[..8] == [0u8; 8] {
        return Err("empty capability chain".to_string());
    }
    let mut sig = [0u8; 64];
    sig.copy_from_slice(&bytes[8..72]);
    let link = &bytes[72..];
    let mut nonce = [0u8; 8];
    nonce.copy_from_slice(&link[64..72]);
    if link[..32] != recipient[..] {
        return Err("chain is not rooted at the recipient".to_string());
    }
    if link[32..64] != presenter[..] {
        return Err("chain is for another audience".to_string());
    }
    if &link[72..] != ability.as_bytes() {
        return Err("ability is not granted".to_string());
    }
    if is_revoked(recipient, u64::from_le_bytes(nonce)) {
        return Err("capability was revoked".to_string());
    }
    if !check(recipient, link, &sig) {
        return Err("capability is forged".to_string());
    }
    Ok(())
}

fn authorize(
    recipient: &NodeId,
    presenter: &NodeId,
    ability: &str,
    grant: &Grant,
    _now: u64,
) -> Result<(), String> {
    authorize_unless(recipient, presenter, ability, grant, &|_: &NodeId, _: u64| false)
}

fn envelope(sender: &Node, to_hex: &str, subject: &str) -> Envelope {
    seal_as(
        sender,
        EnvelopeBody {
            from: String::new(),
            to: to_hex.to_string(),
            subject: subject.into(),
            body_cid: "ab".repeat(32),
            attachment_cids: vec![],
            in_reply_to: String::new(),
            sent_at: 1,
            postage_receipt: String::new(),
        },
    )
}

fn issue(by: &Node, message_id: &str, kind: ReceiptKind, at: u64) -> Receipt {
    Receipt::issue(&by.node_id(), &|m: &[u8]| by.sign(m), message_id, kind, at)
}

#[test]
fn deliver_with_valid_grant_stores() {
    let mailbox = id("svc-mb1");
    let recipient = id("svc-rc1");
    let sender = id("svc-sn1");
    let mut svc = MailService::new(MailboxStore::new(mailbox.node_id(), 100));
    let env = envelope(&sender, &recipient.node_id_hex(), "hi");
    let grant = accept_grant(&recipient, &mailbox);
    let reply = svc.handle(
        &sender.node_id(),
        MailRequest::Deliver { envelope: env, grant },
        1000,
        &authorize,
        &check,
    );
    assert!(matches!(reply, MailReply::Delivered { duplicate: false }));
    assert_eq!(svc.store().pending_count(&recipient.node_id_hex()), 1);
}

#[test]
fn deliver_without_grant_is_refused() {
    let mailbox = id("svc-mb2");
    let recipient = id("svc-rc2");
    let sender = id("svc-sn2");
    let mut svc = MailService::new(MailboxStore::new(mailbox.node_id(), 100));
    let env = envelope(&sender, &recipient.node_id_hex(), "hi");
    let reply = svc.handle(
        &sender.node_id(),
        MailRequest::Deliver { envelope: env, grant: Grant::none() },
        1000,
        &authorize,
        &check,
    );
    assert!(matches!(reply, MailReply::Error { .. }));
    assert_eq!(svc.store().pending_count(&recipient.node_id_hex()), 0);
}

#[test]
fn recipient_drains_own_inbox() {
    let mailbox = id("svc-mb3");
    let recipient = id("svc-rc3");
    let sender = id("svc-sn3");
    let mut svc = MailService::new(MailboxStore::new(mailbox.node_id(), 100));
    let grant = accept_grant(&recipient, &mailbox);
    svc.handle(
        &sender.node_id(),
        MailRequest::Deliver { envelope: envelope(&sender, &recipient.node_id_hex(), "m"), grant },
        1,
        &authorize,
        &check,
    );
    let reply = svc.handle(
        &recipient.node_id(),
        MailRequest::Drain { recipient: recipient.node_id_hex(), since: 0, grant: Grant::none() },
        2,
        &authorize,
        &check,
    );
    match reply {
        MailReply::Drained { envelopes, cursor } => {
            assert_eq!(envelopes.len(), 1);
            assert_eq!(cursor, 1);
        }
        _ => panic!("expected Drained"),
    }
}

#[test]
fn stranger_cannot_drain_inbox() {
    let mailbox = id("svc-mb4");
    let recipient = id("svc-rc4");
    let stranger = id("svc-x4");
    let mut svc = MailService::new(MailboxStore::new(mailbox.node_id(), 100));
    let reply = svc.handle(
        &stranger.node_id(),
        MailRequest::Drain { recipient: recipient.node_id_hex(), since: 0, grant: Grant::none() },
        1,
        &authorize,
        &check,
    );
    assert!(matches!(reply, MailReply::Error { .. }));
}

#[test]
fn ack_frees_storage_for_recipient() {
    let mailbox = id("svc-mb5");
    let recipient = id("svc-rc5");
    let sender = id("svc-sn5");
    let mut svc = MailService::new(MailboxStore::new(mailbox.node_id(), 100));
    let grant = accept_grant(&recipient, &mailbox);
    svc.handle(
        &sender.node_id(),
        MailRequest::Deliver { envelope: envelope(&sender, &recipient.node_id_hex(), "m"), grant },
        1,
        &authorize,
        &check,
    );
    let reply = svc.handle(
        &recipient.node_id(),
        MailRequest::Ack { recipient: recipient.node_id_hex(), cursor: 1, grant: Grant::none() },
        2,
        &authorize,
        &check,
    );
    assert!(matches!(reply, MailReply::Acked { removed: 1 }));
    assert_eq!(svc.store().pending_count(&recipient.node_id_hex()), 0);
}

#[test]
fn drain_page_returns_bounded_page() {
    let mailbox = id("svc-pg1");
    let recipient = id("svc-pg1r");
    let sender = id("svc-pg1s");
    let mut svc = MailService::new(MailboxStore::new(mailbox.node_id(), 100));
    let grant = accept_grant(&recipient, &mailbox);
    for i in 0..3 {
        svc.handle(
            &sender.node_id(),
            MailRequest::Deliver {
                envelope: envelope(&sender, &recipient.node_id_hex(), &format!("m{i}")),
                grant: grant.clone(),
            },
            1,
            &authorize,
            &check,
        );
    }
    let reply = svc.handle(
        &recipient.node_id(),
        MailRequest::DrainPage { recipient: recipient.node_id_hex(), since: 0, limit: 2, grant: Grant::none() },
        2,
        &authorize,
        &check,
    );
    match reply {
        MailReply::Page { envelopes, cursor, more } => {
            assert_eq!(envelopes.len(), 2);
            assert_eq!(cursor, 2);
            assert!(more);
        }
        _ => panic!("expected Page"),
    }
}

#[test]
fn drain_page_stranger_rejected() {
    let mailbox = id("svc-pg2");
    let recipient = id("svc-pg2r");
    let stranger = id("svc-pg2x");
    let mut svc = MailService::new(MailboxStore::new(mailbox.node_id(), 100));
    let reply = svc.handle(
        &stranger.node_id(),
        MailRequest::DrainPage { recipient: recipient.node_id_hex(), since: 0, limit: 5, grant: Grant::none() },
        1,
        &authorize,
        &check,
    );
    assert!(matches!(reply, MailReply::Error { .. }));
}

#[test]
fn put_and_collect_receipt_via_service() {
    let mailbox = id("svc-rc1");
    let sender = id("svc-rc1s");
    let recipient = id("svc-rc1r");
    let mut svc = MailService::new(MailboxStore::new(mailbox.node_id(), 100));
    let grant = accept_grant(&sender, &mailbox);
    let receipt = issue(&recipient, &"ab".repeat(32), ReceiptKind::Read, 5);
    let reply = svc.handle(
        &recipient.node_id(),
        MailRequest::PutReceipt { for_sender: sender.node_id_hex(), receipt, grant },
        1,
        &authorize,
        &check,
    );
    assert!(matches!(reply, MailReply::ReceiptAccepted { duplicate: false }));
    let reply = svc.handle(
        &sender.node_id(),
        MailRequest::CollectReceipts { sender: sender.node_id_hex(), grant: Grant::none() },
        2,
        &authorize,
        &check,
    );
    match reply {
        MailReply::Receipts { receipts } => {
            assert_eq!(receipts.len(), 1);
            assert!(receipts[0].verify(&check).is_ok());
            assert_eq!(receipts[0].body.kind, ReceiptKind::Read);
        }
        _ => panic!("expected Receipts"),
    }
}

#[test]
fn put_receipt_without_grant_refused() {
    let mailbox = id("svc-rc2");
    let sender = id("svc-rc2s");
    let recipient = id("svc-rc2r");
    let mut svc = MailService::new(MailboxStore::new(mailbox.node_id(), 100));
    let receipt = issue(&recipient, &"ab".repeat(32), ReceiptKind::Delivered, 5);
    let reply = svc.handle(
        &recipient.node_id(),
        MailRequest::PutReceipt { for_sender: sender.node_id_hex(), receipt, grant: Grant::none() },
        1,
        &authorize,
        &check,
    );
    assert!(matches!(reply, MailReply::Error { .. }));
}

#[test]
fn stranger_cannot_collect_receipts() {
    let mailbox = id("svc-rc3");
    let sender = id("svc-rc3s");
    let stranger = id("svc-rc3x");
    let mut svc = MailService::new(MailboxStore::new(mailbox.node_id(), 100));
    let reply = svc.handle(
        &stranger.node_id(),
        MailRequest::CollectReceipts { sender: sender.node_id_hex(), grant: Grant::none() },
        1,
        &authorize,
        &check,
    );
    assert!(matches!(reply, MailReply::Error { .. }));
}

#[test]
fn oversized_subject_is_rejected_before_storage() {
    let mailbox = id("svc-lim1");
    let recipient = id("svc-lim1r");
    let sender = id("svc-lim1s");
    let mut svc = MailService::new(MailboxStore::new(mailbox.node_id(), 100));
    let body = EnvelopeBody {
        from: String::new(),
        to: recipient.node_id_hex(),
        subject: "x".repeat(1_000_000),
        body_cid: "ab".repeat(32),
        attachment_cids: vec![],
        in_reply_to: String::new(),
        sent_at: 1,
        postage_receipt: String::new(),
    };
    let env = seal_as(&sender, body);
    let grant = accept_grant(&recipient, &mailbox);
    let reply = svc.handle(
        &sender.node_id(),
        MailRequest::Deliver { envelope: env, grant },
        1000,
        &authorize,
        &check,
    );
    assert!(matches!(reply, MailReply::Error { .. }));
    assert_eq!(svc.store().pending_count(&recipient.node_id_hex()), 0);
}

#[test]
fn drain_page_limit_is_clamped_to_server_ceiling() {
    let mailbox = id("svc-lim2");
    let recipient = id("svc-lim2r");
    let sender = id("svc-lim2s");
    let mut svc = MailService::new(MailboxStore::new(mailbox.node_id(), 1000));
    let grant = accept_grant(&recipient, &mailbox);
    for i in 0..3 {
        svc.handle(
            &sender.node_id(),
            MailRequest::Deliver {
                envelope: envelope(&sender, &recipient.node_id_hex(), &format!("m{i}")),
                grant: grant.clone(),
            },
            1,
            &authorize,
            &check,
        );
    }
    let reply = svc.handle(
        &recipient.node_id(),
        MailRequest::DrainPage {
            recipient: recipient.node_id_hex(),
            since: 0,
            limit: usize::MAX,
            grant: Grant::none(),
        },
        2,
        &authorize,
        &check,
    );
    match reply {
        MailReply::Page { envelopes, cursor, more } => {
            assert_eq!(envelopes.len(), 3);
            assert_eq!(cursor, 3);
            assert!(!more);
        }
        _ => panic!("expected Page"),
    }
}

#[test]
fn tighter_limits_reject_a_subject_default_would_allow() {
    let mailbox = id("svc-lim3");
    let recipient = id("svc-lim3r");
    let sender = id("svc-lim3s");
    let tight = Limits { max_subject_bytes: 4, ..Default::default() };
    let mut svc =
        MailService::with_limits(MailboxStore::new(mailbox.node_id(), 100), tight);
    let env = envelope(&sender, &recipient.node_id_hex(), "this subject is long");
    let grant = accept_grant(&recipient, &mailbox);
    let reply = svc.handle(
        &sender.node_id(),
        MailRequest::Deliver { envelope: env, grant },
        1,
        &authorize,
        &check,
    );
    assert!(matches!(reply, MailReply::Error { .. }));
}

#[test]
fn bad_recipient_hex_yields_error_not_panic() {
    let mailbox = id("svc-mb6");
    let sender = id("svc-sn6");
    let mut svc = MailService::new(MailboxStore::new(mailbox.node_id(), 100));
    let mut env = envelope(&sender, &"ab".repeat(32), "m");
    env.body.to = "not-hex".into();
    let env = seal_as(&sender, env.body);
    let reply = svc.handle(
        &sender.node_id(),
        MailRequest::Deliver { envelope: env, grant: Grant::none() },
        1,
        &authorize,
        &check,
    );
    assert!(matches!(reply, MailReply::Error { .. }));
}

fn error_of(reply: MailReply) -> String {
    match reply {
        MailReply::Error { message } => message,
        _ => panic!("expected an error"),
    }
}

#[test]
fn refusals_say_why() {
    let mailbox = id("why-mb");
    let recipient = id("why-rc");
    let sender = id("why-sn");
    let mut svc = MailService::new(MailboxStore::new(mailbox.node_id(), 100));
    let deliver = |e: Envelope, grant: Grant| MailRequest::Deliver { envelope: e, grant };
    let from = sender.node_id();
    let env = envelope(&sender, &recipient.node_id_hex(), "hi");
    assert_eq!(
        error_of(svc.handle(&from, deliver(env.clone(), Grant::none()), 1, &authorize, &check)),
        "mailbox not authorized to accept mail for recipient: empty capability chain"
    );
    assert_eq!(
        error_of(svc.handle(
            &from,
            deliver(envelope(&sender, "abcd", "hi"), Grant::none()),
            1,
            &authorize,
            &check
        )),
        "bad recipient: node id must be 32 bytes (64 hex chars)"
    );
    let mut forged = env;
    forged.body.subject = "ha".into();
    assert_eq!(
        error_of(svc.handle(
            &from,
            deliver(forged, accept_grant(&recipient, &mailbox)),
            1,
            &authorize,
            &check
        )),
        "refusing to store unverifiable envelope: \
         envelope signature does not verify (forged or tampered)"
    );
    let large = envelope(&sender, &recipient.node_id_hex(), &"x".repeat(5000));
    assert_eq!(
        error_of(svc.handle(&from, deliver(large, Grant::none()), 1, &authorize, &check)),
        "subject too large: 5000 > 4096 bytes"
    );
    assert_eq!(
        error_of(svc.handle(
            &from,
            MailRequest::Drain { recipient: "zz".into(), since: 0, grant: Grant::none() },
            1,
            &authorize,
            &check
        )),
        "bad recipient: node id is not valid hex"
    );
    assert_eq!(
        error_of(svc.handle(
            &from,
            MailRequest::CollectReceipts { sender: "zz".into(), grant: Grant::none() },
            1,
            &authorize,
            &check
        )),
        "bad sender: node id is not valid hex"
    );
    assert_eq!(
        error_of(svc.handle(
            &from,
            MailRequest::Ack {
                recipient: recipient.node_id_hex(),
                cursor: 1,
                grant: Grant::none(),
            },
            1,
            &authorize,
            &check
        )),
        "empty capability chain"
    );
    assert_eq!(svc.store().pending_count(&recipient.node_id_hex()), 0);
}

#[test]
fn a_delegate_may_read_for_the_recipient() {
    let mailbox = id("del-mb");
    let recipient = id("del-rc");
    let delegate = id("del-dg");
    let mut svc = MailService::new(MailboxStore::new(mailbox.node_id(), 100));
    let ask = |grant: Grant| MailRequest::Drain {
        recipient: recipient.node_id_hex(),
        since: 0,
        grant,
    };
    let granted = accept_grant(&recipient, &delegate);
    let r = svc.handle(&delegate.node_id(), ask(granted), 1, &authorize, &check);
    assert!(matches!(r, MailReply::Drained { cursor: 0, .. }));
    let other = accept_grant(&recipient, &mailbox);
    let r = svc.handle(&delegate.node_id(), ask(other), 1, &authorize, &check);
    assert!(matches!(r, MailReply::Error { .. }));
}

#[test]
fn reading_changes_nothing_and_what_was_delivered_is_read() {
    let mailbox = id("read-mb");
    let recipient = id("read-rc");
    let sender = id("read-sn");
    let mut svc = MailService::new(MailboxStore::new(mailbox.node_id(), 100));
    let env = envelope(&sender, &recipient.node_id_hex(), "hi");
    let mid = env.message_id();
    let grant = accept_grant(&recipient, &mailbox);
    let request = MailRequest::Deliver { envelope: env, grant };
    svc.handle(&sender.node_id(), request, 7, &authorize, &check);
    let before = svc.store().to_bytes();
    for _ in 0..2 {
        let ask = MailRequest::Drain {
            recipient: recipient.node_id_hex(),
            since: 0,
            grant: Grant::none(),
        };
        match svc.handle(&recipient.node_id(), ask, 8, &authorize, &check) {
            MailReply::Drained { envelopes, cursor } => {
                assert_eq!(cursor, 1);
                assert_eq!(envelopes[0].message_id(), mid);
            }
            _ => panic!("expected Drained"),
        }
    }
    assert_eq!(svc.store().to_bytes(), before);
}

#[test]
fn pages_are_no_longer_than_the_limit_and_a_limit_of_none_counts_as_one() {
    let mailbox = id("lim-mb");
    let recipient = id("lim-rc");
    let sender = id("lim-sn");
    for (max_page, expected) in [(2usize, 2usize), (0, 1)] {
        let limits = Limits { max_page, ..Default::default() };
        let mut svc =
            MailService::with_limits(MailboxStore::new(mailbox.node_id(), 100), limits);
        assert_eq!(svc.limits().max_page, max_page);
        for i in 0..3 {
            let env = envelope(&sender, &recipient.node_id_hex(), &format!("m{i}"));
            svc.store_mut().accept(env, 1, &check).unwrap();
        }
        let ask = MailRequest::DrainPage {
            recipient: recipient.node_id_hex(),
            since: 0,
            limit: usize::MAX,
            grant: Grant::none(),
        };
        match svc.handle(&recipient.node_id(), ask, 2, &authorize, &check) {
            MailReply::Page { envelopes, cursor, more } => {
                assert_eq!(envelopes.len(), expected);
                assert_eq!(cursor, expected);
                assert!(more);
            }
            _ => panic!("expected Page"),
        }
    }
}
