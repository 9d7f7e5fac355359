use ce_mail::digest::NodeId;
use ce_mail::envelope::{Envelope, EnvelopeBody};
use ce_mail::error::{Format, MailError, NodeIdError, SignatureError};
use ce_mail::mailbox::{Accepted, MailboxStore, SharedMailbox, ABILITY_ACCEPT};
use ce_mail::proto::Grant;
use ce_mail::receipt::{Receipt, ReceiptKind};
use ed25519_dalek::{Signature, Signer, SigningKey, Verifier, VerifyingKey};
use sha2::{Digest, Sha256};

/// A node whose key is made of a tag.
struct Node {
    key: SigningKey,
}

impl Node {
    fn node_id(&self) -> NodeId {
        self.key.verifying_key().to_bytes()
    }

    fn node_id_hex(&self) -> String {
        hex::encode(self.node_id())
    }

    fn sign(&self, message: &[u8]) -> [u8; 64] {
        self.key.sign(message).to_bytes()
    }
}

fn id(tag: &str) -> Node {
    let seed: [u8; 32] = Sha256::digest(tag.as_bytes()).into();
    Node { key: SigningKey::from_bytes(&seed) }
}

fn check(node: &NodeId, message: &[u8], sig: &[u8; 64]) -> bool {
    match VerifyingKey::from_bytes(node) {
        Ok(key) => key.verify(message, &Signature::from_bytes(sig)).is_ok(),
        Err(_) => false,
    }
}

fn seal_as(sender: &Node, body: EnvelopeBody) -> Envelope {
    Envelope::seal(&sender.node_id(), &|m: &[u8]| sender.sign(m), body)
}

/// A capability chain of one link: the issuer lets the audience accept mail for it.
fn grant_with_nonce(issuer: &Node, audience: &Node, nonce: u64) -> Grant {
    let mut link: Vec<u8> = Vec::new();
    link.extend_from_slice(&issuer.node_id());
    link.extend_from_slice(&audience.node_id());
    link.extend_from_slice(&nonce.to_le_bytes());
    link.extend_from_slice(ABILITY_ACCEPT.as_bytes());
    let sig = issuer.sign(&link);
    let mut chain: Vec<u8> = 1u64.to_le_bytes().to_vec();
    chain.extend_from_slice(&sig);
    chain.extend_from_slice(&link);
    Grant { chain }
}

fn accept_grant(issuer: &Node, audience: &Node) -> Grant {
    grant_with_nonce(issuer, audience, 1)
}

fn authorize_unless(
    recipient: &NodeId,
    presenter: &NodeId,
    ability: &str,
    grant: &Grant,
    is_revoked: &dyn Fn(&NodeId, u64) -> bool,
) -> Result<(), String> {
    let bytes = &grant.chain;
    if bytes.len() < 8 || bytes[..8] == [0u8; 8] {
        return Err("empty capability chain".to_string());
    }
    let mut sig = [0u8; 64];
    sig.copy_from_slice(&bytes[8..72]);
    let link = &bytes[72..];
    let mut nonce = [0u8; 8];
    nonce.copy_from_slice(&link[64..72]);
    if link[..32] != recipient[..] {
        return Err("chain is not rooted at the recipient".to_string());
    }
    if link[32..64] != presenter[..] {
        return Err("chain is for another audience".to_string());
    }
    if &link[72..] != ability.as_bytes() {
        return Err("ability is not granted".to_string());
    }
    if is_revoked(recipient, u64::from_le_bytes(nonce)) {
        return Err("capability was revoked".to_string());
    }
    if !check(recipient, link, &sig) {
        return Err("capability is forged".to_string());
    }
    Ok(())
}

fn authorize(
    recipient: &NodeId,
    presenter: &NodeId,
    ability: &str,
    grant: &Grant,
    _now: u64,
) -> Result<(), String> {
    authorize_unless(recipient, presenter, ability, grant, &|_: &NodeId, _: u64| false)
}

fn envelope_to(sender: &Node, to_hex: &str, subject: &str) -> Envelope {
    let body = EnvelopeBody {
        from: String::new(),
        to: to_hex.to_string(),
        subject: subject.to_string(),
        body_cid: "ab".repeat(32),
        attachment_cids: vec![],
        in_reply_to: String::new(),
        sent_at: 1_700_000_000,
        postage_receipt: String::new(),
    };
    seal_as(sender, body)
}

#[test]
fn accept_and_read_roundtrip() {
    let mailbox = id("mb1");
    let sender = id("snd1");
    let recip = id("rcp1");
    let mut store = MailboxStore::new(mailbox.node_id(), 100);
    let env = envelope_to(&sender, &recip.node_id_hex(), "hi");
    assert_eq!(store.accept(env, 10, &check).unwrap(), Accepted::Stored);
    assert_eq!(store.pending_count(&recip.node_id_hex()), 1);
    let (msgs, cursor) = store.read_from(&recip.node_id_hex(), 0);
    assert_eq!(msgs.len(), 1);
    assert_eq!(cursor, 1);
    assert_eq!(msgs[0].envelope.body.subject, "hi");
}

#[test]
fn duplicate_delivery_is_idempotent() {
    let mailbox = id("mb2");
    let sender = id("snd2");
    let recip = id("rcp2");
    let mut store = MailboxStore::new(mailbox.node_id(), 100);
    let env = envelope_to(&sender, &recip.node_id_hex(), "dup");
    assert_eq!(store.accept(env.clone(), 1, &check).unwrap(), Accepted::Stored);
    assert_eq!(store.accept(env, 2, &check).unwrap(), Accepted::Duplicate);
    assert_eq!(store.pending_count(&recip.node_id_hex()), 1);
}

#[test]
fn refuses_forged_envelope() {
    let mailbox = id("mb3");
    let sender = id("snd3");
    let recip = id("rcp3");
    let mut store = MailboxStore::new(mailbox.node_id(), 100);
    let mut env = envelope_to(&sender, &recip.node_id_hex(), "ok");
    env.body.subject = "TAMPERED".into();
    assert!(store.accept(env, 1, &check).is_err());
    assert_eq!(store.pending_count(&recip.node_id_hex()), 0);
}

#[test]
fn ack_removes_delivered() {
    let mailbox = id("mb4");
    let sender = id("snd4");
    let recip = id("rcp4");
    let mut store = MailboxStore::new(mailbox.node_id(), 100);
    for i in 0..3 {
        store.accept(envelope_to(&sender, &recip.node_id_hex(), &format!("m{i}")), i, &check).unwrap();
    }
    let (msgs, cursor) = store.read_from(&recip.node_id_hex(), 0);
    assert_eq!(msgs.len(), 3);
    assert_eq!(store.ack(&recip.node_id_hex(), cursor), 3);
    assert_eq!(store.pending_count(&recip.node_id_hex()), 0);
}

#[test]
fn ack_out_of_range_is_clamped() {
    let mailbox = id("mb5");
    let sender = id("snd5");
    let recip = id("rcp5");
    let mut store = MailboxStore::new(mailbox.node_id(), 100);
    store.accept(envelope_to(&sender, &recip.node_id_hex(), "one"), 1, &check).unwrap();
    assert_eq!(store.ack(&recip.node_id_hex(), 999), 1);
    assert_eq!(store.ack("unknown-recipient", 5), 0);
}

#[test]
fn capacity_evicts_oldest() {
    let mailbox = id("mb6");
    let sender = id("snd6");
    let recip = id("rcp6");
    let mut store = MailboxStore::new(mailbox.node_id(), 2);
    for i in 0..4 {
        store.accept(envelope_to(&sender, &recip.node_id_hex(), &format!("k{i}")), i, &check).unwrap();
    }
    assert_eq!(store.pending_count(&recip.node_id_hex()), 2);
    let (msgs, _) = store.read_from(&recip.node_id_hex(), 0);
    assert_eq!(msgs[0].envelope.body.subject, "k2");
    assert_eq!(msgs[1].envelope.body.subject, "k3");
}

#[test]
fn seen_stays_bounded_under_sustained_overflow() {
    let mailbox = id("mb-seen");
    let sender = id("snd-seen");
    let recip = id("rcp-seen");
    let cap = 4usize;
    let mut store = MailboxStore::new(mailbox.node_id(), cap);
    for i in 0..200u64 {
        store.accept(envelope_to(&sender, &recip.node_id_hex(), &format!("s{i}")), i, &check)
            .unwrap();
    }
    assert_eq!(store.pending_count(&recip.node_id_hex()), cap);
    let still_here = envelope_to(&sender, &recip.node_id_hex(), "s199");
    assert_eq!(store.accept(still_here, 999, &check).unwrap(), Accepted::Duplicate);
    for i in 196..200u64 {
        let kept = envelope_to(&sender, &recip.node_id_hex(), &format!("s{i}"));
        assert_eq!(store.accept(kept, 999, &check).unwrap(), Accepted::Duplicate);
    }
    for i in [195u64, 0] {
        let evicted = envelope_to(&sender, &recip.node_id_hex(), &format!("s{i}"));
        assert_eq!(store.accept(evicted, 999, &check).unwrap(), Accepted::Stored);
    }
    assert_eq!(store.pending_count(&recip.node_id_hex()), cap);
}

#[test]
fn persistence_roundtrip_rebuilds_dedup() {
    let mailbox = id("mb7");
    let sender = id("snd7");
    let recip = id("rcp7");
    let mut store = MailboxStore::new(mailbox.node_id(), 100);
    let env = envelope_to(&sender, &recip.node_id_hex(), "persisted");
    store.accept(env.clone(), 1, &check).unwrap();
    let bytes = store.to_bytes();
    let mut loaded = MailboxStore::from_bytes(&bytes).unwrap();
    assert_eq!(loaded.pending_count(&recip.node_id_hex()), 1);
    assert_eq!(loaded.accept(env, 2, &check).unwrap(), Accepted::Duplicate);
}

#[test]
fn from_bytes_rejects_garbage() {
    assert!(MailboxStore::from_bytes(&[0x01, 0x02]).is_err());
}

#[test]
fn read_from_cursor_returns_only_new() {
    let mailbox = id("mb8");
    let sender = id("snd8");
    let recip = id("rcp8");
    let mut store = MailboxStore::new(mailbox.node_id(), 100);
    store.accept(envelope_to(&sender, &recip.node_id_hex(), "a"), 1, &check).unwrap();
    let (_first, cursor) = store.read_from(&recip.node_id_hex(), 0);
    store.accept(envelope_to(&sender, &recip.node_id_hex(), "b"), 2, &check).unwrap();
    let (second, _) = store.read_from(&recip.node_id_hex(), cursor);
    assert_eq!(second.len(), 1);
    assert_eq!(second[0].envelope.body.subject, "b");
}

#[test]
fn read_page_bounds_and_signals_more() {
    let mailbox = id("pg1");
    let sender = id("pg1s");
    let recip = id("pg1r");
    let mut store = MailboxStore::new(mailbox.node_id(), 100);
    for i in 0..5 {
        store.accept(envelope_to(&sender, &recip.node_id_hex(), &format!("p{i}")), i, &check).unwrap();
    }
    let (page, cursor, more) = store.read_page(&recip.node_id_hex(), 0, 2);
    assert_eq!(page.len(), 2);
    assert_eq!(cursor, 2);
    assert!(more);
    assert_eq!(page[0].envelope.body.subject, "p0");
    let (page, cursor, more) = store.read_page(&recip.node_id_hex(), cursor, 2);
    assert_eq!(page.len(), 2);
    assert_eq!(cursor, 4);
    assert!(more);
    let (page, cursor, more) = store.read_page(&recip.node_id_hex(), cursor, 2);
    assert_eq!(page.len(), 1);
    assert_eq!(cursor, 5);
    assert!(!more);
    assert_eq!(page[0].envelope.body.subject, "p4");
}

#[test]
fn read_page_limit_zero_treated_as_one() {
    let mailbox = id("pg2");
    let sender = id("pg2s");
    let recip = id("pg2r");
    let mut store = MailboxStore::new(mailbox.node_id(), 100);
    store.accept(envelope_to(&sender, &recip.node_id_hex(), "a"), 1, &check).unwrap();
    store.accept(envelope_to(&sender, &recip.node_id_hex(), "b"), 2, &check).unwrap();
    let (page, _, more) = store.read_page(&recip.node_id_hex(), 0, 0);
    assert_eq!(page.len(), 1);
    assert!(more);
}

#[test]
fn read_page_past_end_is_empty() {
    let mailbox = id("pg3");
    let sender = id("pg3s");
    let recip = id("pg3r");
    let mut store = MailboxStore::new(mailbox.node_id(), 100);
    store.accept(envelope_to(&sender, &recip.node_id_hex(), "a"), 1, &check).unwrap();
    let (page, cursor, more) = store.read_page(&recip.node_id_hex(), 5, 10);
    assert!(page.is_empty());
    assert_eq!(cursor, 1);
    assert!(!more);
}

#[test]
fn read_page_unknown_recipient_is_empty() {
    let mailbox = id("pg4");
    let store = MailboxStore::new(mailbox.node_id(), 100);
    let (page, cursor, more) = store.read_page("nobody", 0, 10);
    assert!(page.is_empty());
    assert_eq!(cursor, 0);
    assert!(!more);
}

#[test]
fn full_pagination_covers_all_without_overlap() {
    let mailbox = id("pg5");
    let sender = id("pg5s");
    let recip = id("pg5r");
    let mut store = MailboxStore::new(mailbox.node_id(), 100);
    for i in 0..7u64 {
        store.accept(envelope_to(&sender, &recip.node_id_hex(), &format!("m{i}")), i, &check).unwrap();
    }
    let mut cursor = 0;
    let mut collected = Vec::new();
    loop {
        let (page, next, more) = store.read_page(&recip.node_id_hex(), cursor, 3);
        for s in page {
            collected.push(s.envelope.body.subject.clone());
        }
        cursor = next;
        if !more {
            break;
        }
    }
    assert_eq!(collected, (0..7).map(|i| format!("m{i}")).collect::<Vec<_>>());
}

fn receipt_for(recip: &Node, mid: &str, kind: ReceiptKind) -> Receipt {
    Receipt::issue(&recip.node_id(), &|m: &[u8]| recip.sign(m), mid, kind, 100)
}

#[test]
fn put_and_collect_receipt_roundtrip() {
    let mailbox = id("rc1");
    let sender = id("rc1s");
    let recip = id("rc1r");
    let mut store = MailboxStore::new(mailbox.node_id(), 100);
    let r = receipt_for(&recip, &"ab".repeat(32), ReceiptKind::Delivered);
    assert_eq!(store.put_receipt(&sender.node_id_hex(), r, &check).unwrap(), Accepted::Stored);
    assert_eq!(store.receipt_count(&sender.node_id_hex()), 1);
    let collected = store.collect_receipts(&sender.node_id_hex());
    assert_eq!(collected.len(), 1);
    assert!(collected[0].verify(&check).is_ok());
    assert_eq!(store.receipt_count(&sender.node_id_hex()), 0);
}

#[test]
fn duplicate_receipt_is_idempotent() {
    let mailbox = id("rc2");
    let sender = id("rc2s");
    let recip = id("rc2r");
    let mut store = MailboxStore::new(mailbox.node_id(), 100);
    let r = receipt_for(&recip, &"ab".repeat(32), ReceiptKind::Read);
    assert_eq!(store.put_receipt(&sender.node_id_hex(), r.clone(), &check).unwrap(), Accepted::Stored);
    assert_eq!(store.put_receipt(&sender.node_id_hex(), r, &check).unwrap(), Accepted::Duplicate);
    assert_eq!(store.receipt_count(&sender.node_id_hex()), 1);
}

#[test]
fn delivered_and_read_receipts_coexist() {
    let mailbox = id("rc3");
    let sender = id("rc3s");
    let recip = id("rc3r");
    let mut store = MailboxStore::new(mailbox.node_id(), 100);
    let mid = "ab".repeat(32);
    store.put_receipt(&sender.node_id_hex(), receipt_for(&recip, &mid, ReceiptKind::Delivered), &check).unwrap();
    store.put_receipt(&sender.node_id_hex(), receipt_for(&recip, &mid, ReceiptKind::Read), &check).unwrap();
    assert_eq!(store.receipt_count(&sender.node_id_hex()), 2);
}

#[test]
fn put_receipt_rejects_forged() {
    let mailbox = id("rc4");
    let sender = id("rc4s");
    let recip = id("rc4r");
    let mut store = MailboxStore::new(mailbox.node_id(), 100);
    let mut r = receipt_for(&recip, &"ab".repeat(32), ReceiptKind::Read);
    r.body.at = 999;
    assert!(store.put_receipt(&sender.node_id_hex(), r, &check).is_err());
    assert_eq!(store.receipt_count(&sender.node_id_hex()), 0);
}

#[test]
fn put_receipt_rejects_empty_target() {
    let mailbox = id("rc5");
    let recip = id("rc5r");
    let mut store = MailboxStore::new(mailbox.node_id(), 100);
    let r = receipt_for(&recip, &"ab".repeat(32), ReceiptKind::Read);
    assert!(store.put_receipt("", r, &check).is_err());
}

#[test]
fn receipt_capacity_evicts_oldest_and_forgets_dedup() {
    let mailbox = id("rc6");
    let sender = id("rc6s");
    let mut store = MailboxStore::new(mailbox.node_id(), 2);
    for i in 0..3 {
        let recip = id(&format!("rc6r{i}"));
        let r = receipt_for(&recip, &"ab".repeat(32), ReceiptKind::Delivered);
        store.put_receipt(&sender.node_id_hex(), r, &check).unwrap();
    }
    assert_eq!(store.receipt_count(&sender.node_id_hex()), 2);
}

#[test]
fn receipts_survive_persistence_roundtrip() {
    let mailbox = id("rc7");
    let sender = id("rc7s");
    let recip = id("rc7r");
    let mut store = MailboxStore::new(mailbox.node_id(), 100);
    store.accept(envelope_to(&sender, &recip.node_id_hex(), "m"), 1, &check).unwrap();
    let r = receipt_for(&recip, &"ab".repeat(32), ReceiptKind::Read);
    store.put_receipt(&sender.node_id_hex(), r.clone(), &check).unwrap();
    let bytes = store.to_bytes();
    let mut loaded = MailboxStore::from_bytes(&bytes).unwrap();
    assert_eq!(loaded.receipt_count(&sender.node_id_hex()), 1);
    assert_eq!(loaded.pending_count(&recip.node_id_hex()), 1);
    assert_eq!(loaded.put_receipt(&sender.node_id_hex(), r, &check).unwrap(), Accepted::Duplicate);
}

#[test]
fn legacy_v1_store_loads_with_empty_receipts() {
    let mailbox = id("rc8");
    let sender = id("rc8s");
    let recip = id("rc8r");
    let env = envelope_to(&sender, &recip.node_id_hex(), "legacy");
    let mut legacy: Vec<u8> = mailbox.node_id().to_vec();
    legacy.extend_from_slice(&1u64.to_le_bytes());
    legacy.extend_from_slice(&64u64.to_le_bytes());
    legacy.extend_from_slice(recip.node_id_hex().as_bytes());
    legacy.extend_from_slice(&1u64.to_le_bytes());
    legacy.extend_from_slice(&env.encode());
    legacy.extend_from_slice(&1u64.to_le_bytes());
    legacy.extend_from_slice(&50u64.to_le_bytes());
    let loaded = MailboxStore::from_bytes(&legacy).unwrap();
    assert_eq!(loaded.pending_count(&recip.node_id_hex()), 1);
    assert_eq!(loaded.receipt_count(&sender.node_id_hex()), 0);
}

#[test]
fn valid_accept_grant_passes_gate() {
    let recipient = id("gate-rcp");
    let mailbox = id("gate-mb");
    let store = MailboxStore::new(mailbox.node_id(), 10);
    let chain = accept_grant(&recipient, &mailbox);
    assert!(store.check_accept_grant(&recipient.node_id(), &chain, 1000, &authorize).is_ok());
}

#[test]
fn gate_rejects_missing_grant() {
    let recipient = id("gate-rcp2");
    let mailbox = id("gate-mb2");
    let store = MailboxStore::new(mailbox.node_id(), 10);
    assert!(store.check_accept_grant(&recipient.node_id(), &Grant::none(), 1000, &authorize).is_err());
}

#[test]
fn gate_rejects_grant_for_different_recipient() {
    let recip_a = id("gate-a");
    let recip_b = id("gate-b");
    let mailbox = id("gate-mb3");
    let store = MailboxStore::new(mailbox.node_id(), 10);
    let chain = accept_grant(&recip_a, &mailbox);
    assert!(store.check_accept_grant(&recip_b.node_id(), &chain, 1000, &authorize).is_err());
}

#[test]
fn gate_rejects_grant_to_other_mailbox() {
    let recipient = id("gate-rcp4");
    let mailbox_x = id("gate-mbx");
    let mailbox_y = id("gate-mby");
    let store_y = MailboxStore::new(mailbox_y.node_id(), 10);
    let chain = accept_grant(&recipient, &mailbox_x);
    assert!(store_y.check_accept_grant(&recipient.node_id(), &chain, 1000, &authorize).is_err());
}

#[test]
fn gate_respects_revocation() {
    let recipient = id("gate-rcp5");
    let mailbox = id("gate-mb5");
    let store = MailboxStore::new(mailbox.node_id(), 10);
    let chain = accept_grant(&recipient, &mailbox);
    let revoke_1 = |_: &NodeId, nonce: u64| nonce == 1;
    let gate = |r: &NodeId, p: &NodeId, a: &str, g: &Grant, _now: u64| {
        authorize_unless(r, p, a, g, &revoke_1)
    };
    assert!(store.check_accept_grant(&recipient.node_id(), &chain, 1000, &gate).is_err());
}

#[test]
fn each_refusal_of_a_mailbox_has_its_error() {
    let sender = id("ref-s");
    let mut store = MailboxStore::new(id("ref-mb").node_id(), 10);
    assert_eq!(
        store.accept(envelope_to(&sender, "", "x"), 1, &check),
        Err(MailError::NoRecipient)
    );
    let mut forged = envelope_to(&sender, "to", "x");
    forged.sig[0] ^= 1;
    assert_eq!(
        store.accept(forged, 1, &check),
        Err(MailError::UnverifiableEnvelope(SignatureError::Forged))
    );
    let mut unsigned = envelope_to(&sender, "", "x");
    unsigned.body.from = "zz".into();
    assert_eq!(
        store.accept(unsigned, 1, &check),
        Err(MailError::UnverifiableEnvelope(SignatureError::Signer(NodeIdError::NotHex)))
    );
    let r = receipt_for(&sender, "m", ReceiptKind::Read);
    assert_eq!(store.put_receipt("", r.clone(), &check), Err(MailError::NoTargetSender));
    let mut r2 = r;
    r2.body.message_id = "n".into();
    assert_eq!(
        store.put_receipt("to", r2, &check),
        Err(MailError::UnverifiableReceipt(SignatureError::Forged))
    );
    assert_eq!(
        MailboxStore::from_bytes(&[]).err(),
        Some(MailError::Malformed(Format::MailboxStore))
    );
    assert_eq!(
        store.check_accept_grant(&sender.node_id(), &Grant::none(), 1, &authorize),
        Err(MailError::NotAuthorized("empty capability chain".to_string()))
    );
}

#[test]
fn a_message_acknowledged_is_not_stored_again_but_a_reloaded_mailbox_forgets_it() {
    let sender = id("ackd-s");
    let mut store = MailboxStore::new(id("ackd-mb").node_id(), 10);
    let env = envelope_to(&sender, "to", "once");
    assert_eq!(store.accept(env.clone(), 1, &check), Ok(Accepted::Stored));
    assert_eq!(store.ack("to", 1), 1);
    assert_eq!(store.accept(env.clone(), 2, &check), Ok(Accepted::Duplicate));
    assert_eq!(store.pending_count("to"), 0);
    let mut loaded = MailboxStore::from_bytes(&store.to_bytes()).unwrap();
    assert_eq!(loaded.accept(env, 3, &check), Ok(Accepted::Stored));
}

#[test]
fn recipients_do_not_affect_each_other() {
    let sender = id("apart-s");
    let mut store = MailboxStore::new(id("apart-mb").node_id(), 1);
    store.accept(envelope_to(&sender, "a", "x"), 1, &check).unwrap();
    store.accept(envelope_to(&sender, "b", "x"), 2, &check).unwrap();
    store.accept(envelope_to(&sender, "b", "y"), 3, &check).unwrap();
    assert_eq!(store.ack("b", 1), 0);
    assert_eq!(store.ack("b", 2), 1);
    let (kept, cursor) = store.read_from("a", 0);
    assert_eq!(cursor, 1);
    assert_eq!(kept[0].envelope.body.subject, "x");
    assert_eq!(kept[0].stored_at, 1);
}

#[test]
fn a_capacity_of_none_counts_as_one() {
    let sender = id("zero-s");
    let mut store = MailboxStore::new([4; 32], 0);
    assert_eq!(store.self_id(), &[4; 32]);
    store.accept(envelope_to(&sender, "a", "x"), 1, &check).unwrap();
    store.accept(envelope_to(&sender, "a", "y"), 2, &check).unwrap();
    let (kept, _) = store.read_from("a", 0);
    assert_eq!(kept.len(), 1);
    assert_eq!(kept[0].envelope.body.subject, "y");
}

#[test]
fn a_huge_page_ends_at_the_last_message() {
    let sender = id("huge-s");
    let mut store = MailboxStore::new([4; 32], 10);
    for s in ["x", "y", "z"] {
        store.accept(envelope_to(&sender, "a", s), 1, &check).unwrap();
    }
    let (page, cursor, more) = store.read_page("a", 1, usize::MAX);
    assert_eq!(page.len(), 2);
    assert_eq!(cursor, 3);
    assert!(!more);
    assert_eq!(store.read_page("a", usize::MAX, usize::MAX).1, 3);
}

#[test]
fn collecting_forgets_the_receipts() {
    let recip = id("coll-r");
    let mut store = MailboxStore::new([4; 32], 10);
    let r = receipt_for(&recip, "m", ReceiptKind::Read);
    assert_eq!(store.put_receipt("s", r.clone(), &check), Ok(Accepted::Stored));
    assert_eq!(store.collect_receipts("s"), vec![r.clone()]);
    assert!(store.collect_receipts("s").is_empty());
    assert_eq!(store.put_receipt("s", r, &check), Ok(Accepted::Stored));
}

#[test]
fn an_empty_mailbox_is_saved_as_its_magic_id_and_counts() {
    let store = MailboxStore::new([4; 32], 9);
    let mut expected: Vec<u8> = vec![0x33, 0x4d, 0x45, 0x43];
    expected.extend_from_slice(&[4; 32]);
    expected.extend_from_slice(&0u64.to_le_bytes());
    expected.extend_from_slice(&9u64.to_le_bytes());
    expected.extend_from_slice(&0u64.to_le_bytes());
    expected.extend_from_slice(&0u64.to_le_bytes());
    assert_eq!(store.to_bytes(), expected);
    assert_eq!(store.try_to_bytes().unwrap(), expected);
}

#[test]
fn a_saved_mailbox_keeps_order_and_times() {
    let sender = id("keep-s");
    let mut store = MailboxStore::new([4; 32], 10);
    for (i, s) in ["x", "y", "z"].iter().enumerate() {
        store.accept(envelope_to(&sender, "a", s), i as u64, &check).unwrap();
    }
    store.accept(envelope_to(&sender, "b", "w"), 8, &check).unwrap();
    let loaded = MailboxStore::from_bytes(&store.to_bytes()).unwrap();
    assert_eq!(loaded.self_id(), &[4; 32]);
    let (kept, _) = loaded.read_from("a", 0);
    let subjects: Vec<&str> = kept.iter().map(|k| k.envelope.body.subject.as_str()).collect();
    assert_eq!(subjects, ["x", "y", "z"]);
    assert_eq!(kept[2].stored_at, 2);
    assert_eq!(loaded.pending_count("b"), 1);
}

#[test]
fn clones_of_a_shared_mailbox_share_it() {
    let sender = id("share-s");
    let shared = SharedMailbox::new(MailboxStore::new([4; 32], 2));
    let other = shared.clone();
    assert_eq!(shared.accept(envelope_to(&sender, "a", "x"), 1, &check), Ok(Accepted::Stored));
    assert_eq!(other.accept(envelope_to(&sender, "a", "x"), 2, &check), Ok(Accepted::Duplicate));
    assert_eq!(other.accept(envelope_to(&sender, "a", "y"), 3, &check), Ok(Accepted::Stored));
    assert_eq!(shared.pending_count("a"), Ok(2));
    let (page, cursor, more) = other.read_page("a", 0, 1).unwrap();
    assert_eq!(page[0].envelope.body.subject, "x");
    assert_eq!((cursor, more), (1, true));
    assert_eq!(other.ack("a", 1), Ok(1));
    assert_eq!(shared.pending_count("a"), Ok(1));
    let loaded = MailboxStore::from_bytes(&shared.to_bytes().unwrap()).unwrap();
    assert_eq!(loaded.pending_count("a"), 1);
    let receipts = shared.with(|s: &mut MailboxStore| s.receipt_count("a")).unwrap();
    assert_eq!(receipts, 0);
}

#[test]
fn interleaved_delivery_and_acknowledgement_lose_nothing() {
    let sender = id("inter-s");
    let shared = SharedMailbox::new(MailboxStore::new([4; 32], 100_000));
    let other = shared.clone();
    let mut removed = 0;
    let mut cursor = 0;
    let mut read: Vec<String> = Vec::new();
    for i in 0..50u64 {
        shared.accept(envelope_to(&sender, "a", &format!("m{i}")), i, &check).unwrap();
        if i % 3 == 0 {
            let (page, next, _) = other.read_page("a", cursor, 2).unwrap();
            read.extend(page.into_iter().map(|s| s.envelope.body.subject));
            cursor = next;
            removed += other.ack("a", cursor).unwrap();
        }
    }
    assert_eq!(removed, read.len());
    assert_eq!(shared.pending_count("a"), Ok(50 - removed));
    let (rest, _, more) = other.read_page("a", cursor, 100).unwrap();
    assert!(!more);
    read.extend(rest.into_iter().map(|s| s.envelope.body.subject));
    assert_eq!(read, (0..50).map(|i| format!("m{i}")).collect::<Vec<_>>());
}

fn subjects(store: &MailboxStore, to: &str, since: usize) -> (Vec<String>, usize) {
    let (kept, next) = store.read_from(to, since);
    (kept.into_iter().map(|s| s.envelope.body.subject).collect(), next)
}

#[test]
fn a_stored_cursor_gives_what_came_since_across_acknowledgements() {
    let sender = id("cur-s");
    let mut store = MailboxStore::new([4; 32], 100);
    store.accept(envelope_to(&sender, "r", "a"), 1, &check).unwrap();
    let (first, c) = subjects(&store, "r", 0);
    assert_eq!((first, c), (vec!["a".to_string()], 1));
    assert_eq!(store.ack("r", c), 1);
    assert_eq!(subjects(&store, "r", c), (vec![], 1));
    store.accept(envelope_to(&sender, "r", "b"), 2, &check).unwrap();
    assert_eq!(subjects(&store, "r", c), (vec!["b".to_string()], 2));
    assert_eq!(subjects(&store, "r", 0), (vec!["b".to_string()], 2));
    assert_eq!(store.ack("r", c), 0);
    assert_eq!(store.pending_count("r"), 1);
    let (page, next, more) = store.read_page("r", c, 5);
    assert_eq!((page.len(), next, more), (1, 2, false));
    assert_eq!(store.ack("r", 99), 1);
    assert_eq!(subjects(&store, "r", 99), (vec![], 2));
}

#[test]
fn a_stored_cursor_outlives_eviction_and_saving() {
    let sender = id("cur2-s");
    let mut store = MailboxStore::new([4; 32], 2);
    for s in ["a", "b"] {
        store.accept(envelope_to(&sender, "r", s), 1, &check).unwrap();
    }
    let (_, c) = subjects(&store, "r", 0);
    assert_eq!(c, 2);
    store.accept(envelope_to(&sender, "r", "c"), 2, &check).unwrap();
    assert_eq!(subjects(&store, "r", c), (vec!["c".to_string()], 3));
    assert_eq!(subjects(&store, "r", 0), (vec!["b".to_string(), "c".to_string()], 3));
    let mut loaded = MailboxStore::from_bytes(&store.to_bytes()).unwrap();
    assert_eq!(subjects(&loaded, "r", c), (vec!["c".to_string()], 3));
    assert_eq!(loaded.ack("r", c), 1);
    assert_eq!(subjects(&loaded, "r", 0), (vec!["c".to_string()], 3));
    for s in ["d", "e", "f"] {
        loaded.accept(envelope_to(&sender, "r", s), 3, &check).unwrap();
    }
    assert_eq!(subjects(&loaded, "r", c), (vec!["e".to_string(), "f".to_string()], 6));
}

/// A mailbox with one envelope and one receipt, in the form without counts.
fn form_with_receipts(mailbox: &Node, to: &str, env: &Envelope, r: &Receipt) -> Vec<u8> {
    let mut b: Vec<u8> = vec![0x32, 0x4d, 0x45, 0x43];
    b.extend_from_slice(&mailbox.node_id());
    b.extend_from_slice(&1u64.to_le_bytes());
    b.extend_from_slice(&(to.len() as u64).to_le_bytes());
    b.extend_from_slice(to.as_bytes());
    b.extend_from_slice(&1u64.to_le_bytes());
    b.extend_from_slice(&env.encode());
    b.extend_from_slice(&7u64.to_le_bytes());
    b.extend_from_slice(&50u64.to_le_bytes());
    b.extend_from_slice(&1u64.to_le_bytes());
    b.extend_from_slice(&1u64.to_le_bytes());
    b.extend_from_slice(b"s");
    b.extend_from_slice(&1u64.to_le_bytes());
    b.extend_from_slice(&r.encode());
    b
}

#[test]
fn a_mailbox_saved_before_there_were_counts_loads() {
    let mailbox = id("v2-mb");
    let sender = id("v2-s");
    let recip = id("v2-r");
    let env = envelope_to(&sender, "r", "kept");
    let r = receipt_for(&recip, "m", ReceiptKind::Read);
    let mut loaded =
        MailboxStore::from_bytes(&form_with_receipts(&mailbox, "r", &env, &r)).unwrap();
    assert_eq!(loaded.self_id(), &mailbox.node_id());
    assert_eq!(subjects(&loaded, "r", 0), (vec!["kept".to_string()], 1));
    assert_eq!(loaded.read_from("r", 0).0[0].stored_at, 7);
    assert_eq!(loaded.put_receipt("s", r, &check), Ok(Accepted::Duplicate));
    assert_eq!(loaded.accept(env, 8, &check), Ok(Accepted::Duplicate));
}

#[test]
fn a_saved_count_that_leaves_no_room_for_cursors_is_malformed() {
    let sender = id("full-s");
    let mut store = MailboxStore::new([4; 32], 5);
    store.accept(envelope_to(&sender, "r", "x"), 1, &check).unwrap();
    let mut bytes = store.to_bytes();
    let at = bytes.len() - 8;
    assert_eq!(bytes[at..], 0u64.to_le_bytes());
    bytes[at..].copy_from_slice(&(u64::MAX - 1).to_le_bytes());
    let mut nearly = MailboxStore::from_bytes(&bytes).unwrap();
    assert_eq!(subjects(&nearly, "r", usize::MAX - 1), (vec!["x".to_string()], usize::MAX));
    nearly.accept(envelope_to(&sender, "r", "y"), 2, &check).unwrap();
    assert_eq!(subjects(&nearly, "r", 0), (vec!["x".to_string(), "y".to_string()], 2));
    bytes[at..].copy_from_slice(&u64::MAX.to_le_bytes());
    assert_eq!(
        MailboxStore::from_bytes(&bytes).err(),
        Some(MailError::Malformed(Format::MailboxStore))
    );
}

#[test]
fn a_message_is_recognised_whatever_happened_since_unless_it_was_evicted() {
    let mailbox = id("again");
    let sender = id("again-s");
    let recip = id("again-r");
    let to = recip.node_id_hex();
    let mut store = MailboxStore::new(mailbox.node_id(), 2);
    let first = envelope_to(&sender, &to, "first");
    assert_eq!(store.accept(first.clone(), 1, &check).unwrap(), Accepted::Stored);
    let r = receipt_for(&recip, &first.message_id(), ReceiptKind::Read);
    store.put_receipt(&sender.node_id_hex(), r, &check).unwrap();
    assert_eq!(store.ack(&to, 1), 1);
    store.accept(envelope_to(&sender, &to, "second"), 2, &check).unwrap();
    store.accept(envelope_to(&sender, &to, "third"), 3, &check).unwrap();
    store.accept(envelope_to(&sender, &to, "fourth"), 4, &check).unwrap();
    store.collect_receipts(&sender.node_id_hex());
    assert_eq!(store.accept(first, 5, &check).unwrap(), Accepted::Duplicate);
    assert_eq!(store.pending_count(&to), 2);
    let evicted = envelope_to(&sender, &to, "second");
    assert_eq!(store.accept(evicted, 6, &check).unwrap(), Accepted::Stored);
}

#[test]
fn a_loaded_mailbox_keeps_its_capacity_and_recognises_what_it_kept() {
    let mailbox = id("load");
    let sender = id("load-s");
    let recip = id("load-r");
    let to = recip.node_id_hex();
    let mut store = MailboxStore::new(mailbox.node_id(), 2);
    let kept = envelope_to(&sender, &to, "kept");
    store.accept(kept.clone(), 1, &check).unwrap();
    let r = receipt_for(&recip, &kept.message_id(), ReceiptKind::Delivered);
    store.put_receipt(&sender.node_id_hex(), r.clone(), &check).unwrap();
    let mut loaded = MailboxStore::from_bytes(&store.to_bytes()).unwrap();
    assert_eq!(loaded.self_id(), &mailbox.node_id());
    assert_eq!(loaded.accept(kept.clone(), 2, &check).unwrap(), Accepted::Duplicate);
    assert_eq!(
        loaded.put_receipt(&sender.node_id_hex(), r, &check).unwrap(),
        Accepted::Duplicate
    );
    loaded.accept(envelope_to(&sender, &to, "b"), 3, &check).unwrap();
    assert_eq!(loaded.accept(kept.clone(), 4, &check).unwrap(), Accepted::Duplicate);
    loaded.accept(envelope_to(&sender, &to, "c"), 5, &check).unwrap();
    assert_eq!(loaded.pending_count(&to), 2);
    assert_eq!(loaded.accept(kept, 6, &check).unwrap(), Accepted::Stored);
}

#[test]
fn a_receipt_is_recognised_until_it_is_collected_or_evicted() {
    let mailbox = id("dep");
    let sender = id("dep-s");
    let recip = id("dep-r");
    let name = sender.node_id_hex();
    let mut store = MailboxStore::new(mailbox.node_id(), 2);
    let first = receipt_for(&recip, "one", ReceiptKind::Read);
    assert_eq!(store.put_receipt(&name, first.clone(), &check).unwrap(), Accepted::Stored);
    store.accept(envelope_to(&recip, &name, "mail"), 1, &check).unwrap();
    store.ack(&name, 1);
    store.collect_receipts(&recip.node_id_hex());
    store.put_receipt(&name, receipt_for(&recip, "two", ReceiptKind::Read), &check).unwrap();
    assert_eq!(store.put_receipt(&name, first.clone(), &check).unwrap(), Accepted::Duplicate);
    store.put_receipt(&name, receipt_for(&recip, "three", ReceiptKind::Read), &check).unwrap();
    assert_eq!(store.put_receipt(&name, first.clone(), &check).unwrap(), Accepted::Stored);
    store.collect_receipts(&name);
    assert_eq!(store.put_receipt(&name, first, &check).unwrap(), Accepted::Stored);
}
