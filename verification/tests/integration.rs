use ce_mail::attachment::Attachment;
use ce_mail::client::{
    attachment_blob, body_blob, screen_messages, verified_envelopes, Keys, MailClient, Message,
    SendAction, SendOptions,
};
use ce_mail::digest::NodeId;
use ce_mail::envelope::{Envelope, EnvelopeBody};
use ce_mail::limits::Limits;
use ce_mail::mailbox::{MailboxStore, ABILITY_ACCEPT};
use ce_mail::proto::{Grant, MailReply, MailRequest};
use ce_mail::receipt::{Receipt, ReceiptKind};
use ce_mail::screening::{Amount, ScreeningPolicy, SenderStanding};
use ce_mail::service::MailService;
use ce_mail::thread::{group_threads, Conversation};
use ed25519_dalek::{Signature, Signer, SigningKey, Verifier, VerifyingKey};
use sha2::{Digest, Sha256};
use std::cell::{Cell, RefCell};
use std::collections::HashMap;

/// A node whose key is made of a tag.
struct Node {
    key: SigningKey,
}

impl Node {
    fn node_id(&self) -> NodeId {
        self.key.verifying_key().to_bytes()
    }

    fn node_id_hex(&self) -> String {
        hex::encode(self.node_id())
    }

    fn secret_bytes(&self) -> [u8; 32] {
        self.key.to_bytes()
    }

    fn sign(&self, message: &[u8]) -> [u8; 64] {
        self.key.sign(message).to_bytes()
    }
}

fn id(tag: &str) -> Node {
    let seed: [u8; 32] = Sha256::digest(tag.as_bytes()).into();
    Node { key: SigningKey::from_bytes(&seed) }
}

fn check(node: &NodeId, message: &[u8], sig: &[u8; 64]) -> bool {
    match VerifyingKey::from_bytes(node) {
        Ok(key) => key.verify(message, &Signature::from_bytes(sig)).is_ok(),
        Err(_) => false,
    }
}

fn seal_as(sender: &Node, body: EnvelopeBody) -> Envelope {
    Envelope::seal(&sender.node_id(), &|m: &[u8]| sender.sign(m), body)
}

/// A capability chain of one link: the issuer lets the audience accept mail for it.
fn grant_with_nonce(issuer: &Node, audience: &Node, nonce: u64) -> Grant {
    let mut link: Vec<u8> = Vec::new();
    link.extend_from_slice(&issuer.node_id());
    link.extend_from_slice(&audience.node_id());
    link.extend_from_slice(&nonce.to_le_bytes());
    link.extend_from_slice(ABILITY_ACCEPT.as_bytes());
    let sig = issuer.sign(&link);
    let mut chain: Vec<u8> = 1u64.to_le_bytes().to_vec();
    chain.extend_from_slice(&sig);
    chain.extend_from_slice(&link);
    Grant { chain }
}

fn accept_grant(issuer: &Node, audience: &Node) -> Grant {
    grant_with_nonce(issuer, audience, 1)
}

fn authorize_unless(
    recipient: &NodeId,
    presenter: &NodeId,
    ability: &str,
    grant: &Grant,
    is_revoked: &dyn Fn(&NodeId, u64) -> bool,
) -> Result<(), String> {
    let bytes = &grant.chain;
    if bytes.len() < 8 || bytes[..8] == [0u8; 8] {
        return Err("empty capability chain".to_string());
    }
    let mut sig = [0u8; 64];
    sig.copy_from_slice(&bytes[8..72]);
    let link = &bytes[72..];
    let mut nonce = [0u8; 8];
    nonce.copy_from_slice(&link[64..72]);
    if link[..32] != recipient[..] {
        return Err("chain is not rooted at the recipient".to_string());
    }
    if link[32..64] != presenter[..] {
        return Err("chain is for another audience".to_string());
    }
    if &link[72..] != ability.as_bytes() {
        return Err("ability is not granted".to_string());
    }
    if is_revoked(recipient, u64::from_le_bytes(nonce)) {
        return Err("capability was revoked".to_string());
    }
    if !check(recipient, link, &sig) {
        return Err("capability is forged".to_string());
    }
    Ok(())
}

fn authorize(
    recipient: &NodeId,
    presenter: &NodeId,
    ability: &str,
    grant: &Grant,
    _now: u64,
) -> Result<(), String> {
    authorize_unless(recipient, presenter, ability, grant, &|_: &NodeId, _: u64| false)
}

/// A network in memory: blobs by their hash, and a mailbox service for each node that runs one.
struct Net {
    blobs: RefCell<HashMap<String, Vec<u8>>>,
    services: RefCell<HashMap<String, MailService>>,
    drop_peer: Cell<bool>,
    lose_blobs: Cell<bool>,
}

impl Net {
    fn new() -> Self {
        Net {
            blobs: RefCell::new(HashMap::new()),
            services: RefCell::new(HashMap::new()),
            drop_peer: Cell::new(false),
            lose_blobs: Cell::new(false),
        }
    }

    fn install(&self, node: &Node) {
        let store = MailboxStore::new(node.node_id(), 100);
        self.services.borrow_mut().insert(node.node_id_hex(), MailService::new(store));
    }

    fn put_blob(&self, bytes: Vec<u8>) -> String {
        let cid = hex::encode(Sha256::digest(&bytes));
        self.blobs.borrow_mut().insert(cid.clone(), bytes);
        cid
    }

    fn get_blob(&self, cid: &str) -> Option<Vec<u8>> {
        if self.lose_blobs.get() {
            return None;
        }
        self.blobs.borrow().get(cid).cloned()
    }

    fn request(&self, me: &NodeId, to: &str, request: &MailRequest) -> Result<MailReply, String> {
        if self.drop_peer.get() {
            return Err("dropped peer".to_string());
        }
        let mut services = self.services.borrow_mut();
        let service = services.get_mut(to).ok_or_else(|| format!("no service for {to}"))?;
        let request = MailRequest::decode(&request.encode()).map_err(|e| e.message())?;
        let reply = service.handle(me, request, 1000, &authorize, &check);
        MailReply::decode(&reply.encode()).map_err(|e| e.message())
    }

    fn holds_in_clear(&self, secret: &[u8]) -> bool {
        self.blobs.borrow().values().any(|b| b.windows(secret.len()).any(|w| w == secret))
    }
}

/// A client of one node on the network.
struct Client<'a> {
    net: &'a Net,
    who: &'a Node,
    inner: MailClient,
}

fn client<'a>(net: &'a Net, who: &'a Node) -> Client<'a> {
    let keys = Keys { node_id: who.node_id(), secret: who.secret_bytes() };
    Client { net, who, inner: MailClient::new(keys) }
}

#[allow(dead_code)]
impl<'a> Client<'a> {
    fn with_limits(self, limits: Limits) -> Self {
        Client { inner: self.inner.with_limits(limits), ..self }
    }

    fn ask(&self, to: &str, request: &MailRequest) -> Result<MailReply, String> {
        self.net.request(&self.who.node_id(), to, request)
    }

    fn send(&self, options: SendOptions) -> Result<String, String> {
        let mut outgoing = self.inner.send(options).map_err(|e| e.message())?;
        loop {
            let action = self
                .inner
                .next_action(&outgoing, 1_700_000_000, &|m: &[u8]| self.who.sign(m))
                .map_err(|e| e.message())?;
            match action {
                SendAction::StoreBlob { bytes } => {
                    let cid = self.net.put_blob(bytes);
                    outgoing.blob_stored(cid);
                }
                SendAction::Deliver { message_id, to, request } => {
                    let reply = self.ask(&to, &request)?;
                    return self.inner.delivered(message_id, reply).map_err(|e| e.message());
                }
            }
        }
    }

    fn messages(&self, envelopes: Vec<Envelope>) -> Vec<Message> {
        verified_envelopes(envelopes, &check)
            .into_iter()
            .map(|e| {
                let blob = body_blob(&e).and_then(|cid| self.net.get_blob(cid));
                self.inner.compose_message(e, blob)
            })
            .collect()
    }

    fn drain_inbox(
        &self,
        mailbox: &str,
        since: usize,
        grant: Grant,
    ) -> Result<(Vec<Message>, usize), String> {
        let reply = self.ask(mailbox, &self.inner.drain_request(since, grant))?;
        let (envelopes, cursor) = self.inner.drained(reply).map_err(|e| e.message())?;
        Ok((self.messages(envelopes), cursor))
    }

    fn drain_inbox_page(
        &self,
        mailbox: &str,
        since: usize,
        limit: usize,
        grant: Grant,
    ) -> Result<(Vec<Message>, usize, bool), String> {
        let reply = self.ask(mailbox, &self.inner.drain_page_request(since, limit, grant))?;
        let (envelopes, cursor, more) =
            self.inner.drained_page(reply).map_err(|e| e.message())?;
        Ok((self.messages(envelopes), cursor, more))
    }

    fn drain_inbox_threaded(
        &self,
        mailbox: &str,
        since: usize,
        grant: Grant,
    ) -> Result<(Vec<Conversation>, usize), String> {
        let (messages, cursor) = self.drain_inbox(mailbox, since, grant)?;
        let envelopes: Vec<Envelope> = messages.into_iter().map(|m| m.envelope).collect();
        Ok((group_threads(&envelopes), cursor))
    }

    fn screen_inbox<F: Fn(&str) -> Option<Amount>>(
        &self,
        mailbox: &str,
        since: usize,
        grant: Grant,
        policy: &ScreeningPolicy,
        verify_postage: F,
    ) -> Result<(Vec<Message>, Vec<Message>, usize), String> {
        let (messages, cursor) = self.drain_inbox(mailbox, since, grant)?;
        let standings = vec![SenderStanding::Newcomer; messages.len()];
        let (inbox, spam) = screen_messages(policy, messages, &standings, &verify_postage);
        Ok((inbox, spam, cursor))
    }

    fn send_receipt(
        &self,
        mailbox: &str,
        for_sender: &str,
        message_id: &str,
        kind: ReceiptKind,
        grant: Grant,
    ) -> Result<bool, String> {
        let request = self.inner.receipt_request(
            for_sender,
            message_id,
            kind,
            grant,
            1_700_000_000,
            &|m: &[u8]| self.who.sign(m),
        );
        let reply = self.ask(mailbox, &request)?;
        self.inner.receipt_deposited(reply).map_err(|e| e.message())
    }

    fn collect_receipts(&self, mailbox: &str, grant: Grant) -> Result<Vec<Receipt>, String> {
        let reply = self.ask(mailbox, &self.inner.collect_request(grant))?;
        self.inner.collected(reply, &check).map_err(|e| e.message())
    }

    fn ack(&self, mailbox: &str, cursor: usize, grant: Grant) -> Result<usize, String> {
        let reply = self.ask(mailbox, &self.inner.ack_request(cursor, grant))?;
        self.inner.acked(reply).map_err(|e| e.message())
    }

    fn open_body(&self, envelope: &Envelope) -> Result<Vec<u8>, String> {
        let blob = match body_blob(envelope) {
            None => vec![],
            Some(cid) => self.net.get_blob(cid).ok_or_else(|| format!("no blob {cid}"))?,
        };
        self.inner.open_body(envelope, &blob).map_err(|e| e.message())
    }

    fn open_attachment(&self, envelope: &Envelope, index: usize) -> Result<Attachment, String> {
        let cid = attachment_blob(envelope, index).map_err(|e| e.message())?;
        let blob = self.net.get_blob(cid).ok_or_else(|| format!("no blob {cid}"))?;
        self.inner.open_attachment(&blob).map_err(|e| e.message())
    }

    fn open_attachments(&self, envelope: &Envelope) -> Result<Vec<Attachment>, String> {
        (0..envelope.attachment_count()).map(|i| self.open_attachment(envelope, i)).collect()
    }
}

fn credits(n: u128) -> Amount {
    Amount::from_base(n * 1_000_000_000_000_000_000)
}

#[test]
fn envelope_encode_decode_roundtrip_e2e() {
    let sender = id("env-s");
    let recip = id("env-r");
    let env = seal_as(
        &sender,
        EnvelopeBody {
            from: String::new(),
            to: recip.node_id_hex(),
            subject: "round trip".into(),
            body_cid: "ab".repeat(32),
            attachment_cids: vec!["cd".repeat(32)],
            in_reply_to: String::new(),
            sent_at: 42,
            postage_receipt: String::new(),
        },
    );
    let back = Envelope::decode(&env.encode()).unwrap();
    assert_eq!(env.body, back.body);
    assert!(back.verify(&check).is_ok());
    assert_eq!(env.message_id(), back.message_id());
}

#[test]
fn delivery_and_ack_via_mailbox() {
    let net = Net::new();
    let mb = id("da-mb");
    let recip = id("da-rc");
    let sender = id("da-sn");
    net.install(&mb);

    let sc = client(&net, &sender);
    let mid = sc.send(SendOptions {
            to: recip.node_id_hex(),
            subject: "ack me".into(),
            body: b"payload".to_vec(),
            mailbox: Some(mb.node_id_hex()),
            grant: accept_grant(&recip, &mb),
            ..Default::default()
        })
        .unwrap();
    assert_eq!(mid.len(), 64);

    let rc = client(&net, &recip);
    let (msgs, cursor) = rc.drain_inbox(&mb.node_id_hex(), 0, Grant::none()).unwrap();
    assert_eq!(msgs.len(), 1);
    assert_eq!(rc.ack(&mb.node_id_hex(), cursor, Grant::none()).unwrap(), 1);
    let (after, _) = rc.drain_inbox(&mb.node_id_hex(), 0, Grant::none()).unwrap();
    assert!(after.is_empty());
}

#[test]
fn offline_store_replay_preserves_order_and_content() {
    let net = Net::new();
    let mb = id("rp-mb");
    let recip = id("rp-rc");
    let sender = id("rp-sn");
    net.install(&mb);
    let sc = client(&net, &sender);
    for i in 0..3 {
        sc.send(SendOptions {
            to: recip.node_id_hex(),
            subject: format!("msg {i}"),
            body: format!("body {i}").into_bytes(),
            mailbox: Some(mb.node_id_hex()),
            grant: accept_grant(&recip, &mb),
            ..Default::default()
        })
        .unwrap();
    }
    let rc = client(&net, &recip);
    let (msgs, _) = rc.drain_inbox(&mb.node_id_hex(), 0, Grant::none()).unwrap();
    assert_eq!(msgs.len(), 3);
    for (i, m) in msgs.iter().enumerate() {
        assert_eq!(m.envelope.body.subject, format!("msg {i}"));
        assert_eq!(m.body_text(), format!("body {i}"));
    }
}

#[test]
fn capability_gate_blocks_unauthorized_delivery() {
    let net = Net::new();
    let mb = id("cg-mb");
    let recip = id("cg-rc");
    let sender = id("cg-sn");
    net.install(&mb);
    let sc = client(&net, &sender);
    let r = sc.send(SendOptions {
            to: recip.node_id_hex(),
            subject: "x".into(),
            body: b"x".to_vec(),
            mailbox: Some(mb.node_id_hex()),
            grant: Grant::none(),
            ..Default::default()
        });
    assert!(r.is_err());
}

#[test]
fn e2e_body_encryption_only_recipient_can_read() {
    let net = Net::new();
    let mb = id("enc-mb");
    let recip = id("enc-rc");
    let sender = id("enc-sn");
    net.install(&mb);
    let secret = b"top secret only for the recipient";
    let sc = client(&net, &sender);
    sc.send(SendOptions {
        to: recip.node_id_hex(),
        subject: "sealed".into(),
        body: secret.to_vec(),
        mailbox: Some(mb.node_id_hex()),
        grant: accept_grant(&recip, &mb),
        ..Default::default()
    })
    .unwrap();
    let stored_has_plaintext = net.holds_in_clear(secret);
    assert!(!stored_has_plaintext, "plaintext leaked into the stored blob");
    let rc = client(&net, &recip);
    let (msgs, _) = rc.drain_inbox(&mb.node_id_hex(), 0, Grant::none()).unwrap();
    assert_eq!(msgs[0].body, secret);
    let attacker = id("enc-att");
    let ac = client(&net, &attacker);
    let opened = ac.open_body(&msgs[0].envelope);
    assert!(opened.is_err(), "attacker must not decrypt the body");
}

#[test]
fn dropped_peer_is_handled_gracefully() {
    let net = Net::new();
    let mb = id("dp-mb");
    let recip = id("dp-rc");
    let sender = id("dp-sn");
    net.install(&mb);
    net.drop_peer.set(true);
    let sc = client(&net, &sender);
    let r = sc.send(SendOptions {
            to: recip.node_id_hex(),
            subject: "x".into(),
            body: b"x".to_vec(),
            mailbox: Some(mb.node_id_hex()),
            grant: accept_grant(&recip, &mb),
            ..Default::default()
        });
    assert!(r.is_err());
}

#[test]
fn threading_via_in_reply_to() {
    let net = Net::new();
    let mb = id("th-mb");
    let recip = id("th-rc");
    let sender = id("th-sn");
    net.install(&mb);
    let sc = client(&net, &sender);
    let first = sc.send(SendOptions {
            to: recip.node_id_hex(),
            subject: "thread start".into(),
            body: b"hello".to_vec(),
            mailbox: Some(mb.node_id_hex()),
            grant: accept_grant(&recip, &mb),
            ..Default::default()
        })
        .unwrap();
    let rc_grant_to_mb = grant_with_nonce(&sender, &mb, 2);
    let rc = client(&net, &recip);
    rc.send(SendOptions {
        to: sender.node_id_hex(),
        subject: "re: thread start".into(),
        body: b"hi back".to_vec(),
        in_reply_to: first.clone(),
        mailbox: Some(mb.node_id_hex()),
        grant: rc_grant_to_mb,
        ..Default::default()
    })
    .unwrap();

    let sender_inbox = client(&net, &sender);
    let (msgs, _) = sender_inbox.drain_inbox(&mb.node_id_hex(), 0, Grant::none()).unwrap();
    assert_eq!(msgs.len(), 1);
    assert_eq!(msgs[0].envelope.body.in_reply_to, first);
}

#[test]
fn paginated_inbox_drain_e2e() {
    let net = Net::new();
    let mb = id("pg-mb");
    let recip = id("pg-rc");
    let sender = id("pg-sn");
    net.install(&mb);
    let sc = client(&net, &sender);
    for i in 0..6 {
        sc.send(SendOptions {
            to: recip.node_id_hex(),
            subject: format!("m{i}"),
            body: format!("b{i}").into_bytes(),
            mailbox: Some(mb.node_id_hex()),
            grant: accept_grant(&recip, &mb),
            ..Default::default()
        })
        .unwrap();
    }
    let rc = client(&net, &recip);
    let mut cursor = 0;
    let mut seen = Vec::new();
    let mut pages = 0;
    loop {
        let (msgs, next, more) =
            rc.drain_inbox_page(&mb.node_id_hex(), cursor, 2, Grant::none()).unwrap();
        assert!(msgs.len() <= 2);
        pages += 1;
        for m in msgs {
            seen.push(m.envelope.body.subject.clone());
        }
        cursor = next;
        if !more {
            break;
        }
    }
    assert_eq!(seen, (0..6).map(|i| format!("m{i}")).collect::<Vec<_>>());
    assert_eq!(pages, 3, "6 messages / page size 2 = 3 pages");
}

#[test]
fn read_receipt_round_trip_e2e() {
    let net = Net::new();
    let mb = id("rr-mb");
    let recip = id("rr-rc");
    let sender = id("rr-sn");
    net.install(&mb);
    let sc = client(&net, &sender);
    let mid = sc.send(SendOptions {
            to: recip.node_id_hex(),
            subject: "ack please".into(),
            body: b"open me".to_vec(),
            mailbox: Some(mb.node_id_hex()),
            grant: accept_grant(&recip, &mb),
            ..Default::default()
        })
        .unwrap();
    let rc = client(&net, &recip);
    let (msgs, _) = rc.drain_inbox(&mb.node_id_hex(), 0, Grant::none()).unwrap();
    assert_eq!(msgs.len(), 1);
    rc.send_receipt(
        &mb.node_id_hex(),
        &sender.node_id_hex(),
        &msgs[0].id(),
        ReceiptKind::Read,
        accept_grant(&sender, &mb),
    )
    .unwrap();
    let receipts = sc.collect_receipts(&mb.node_id_hex(), Grant::none()).unwrap();
    assert_eq!(receipts.len(), 1);
    assert_eq!(receipts[0].body.message_id, mid);
    assert_eq!(receipts[0].body.by, recip.node_id_hex());
    assert!(receipts[0].verify(&check).is_ok());
}

#[test]
fn offline_replay_is_idempotent_across_redelivery() {
    let mb = id("ir-mb");
    let recip = id("ir-rc");
    let sender = id("ir-sn");
    let mut svc = MailService::new(MailboxStore::new(mb.node_id(), 100));
    let grant = accept_grant(&recip, &mb);
    let env = seal_as(
        &sender,
        EnvelopeBody {
            from: String::new(),
            to: recip.node_id_hex(),
            subject: "retry".into(),
            body_cid: "ab".repeat(32),
            attachment_cids: vec![],
            in_reply_to: String::new(),
            sent_at: 5,
            postage_receipt: String::new(),
        },
    );
    let r1 = svc.handle(
        &sender.node_id(),
        MailRequest::Deliver { envelope: env.clone(), grant: grant.clone() },
        1,
        &authorize,
        &check,
    );
    assert!(matches!(r1, MailReply::Delivered { duplicate: false }));
    let r2 = svc.handle(
        &sender.node_id(),
        MailRequest::Deliver { envelope: env.clone(), grant: grant.clone() },
        1,
        &authorize,
        &check,
    );
    assert!(matches!(r2, MailReply::Delivered { duplicate: true }));
    assert_eq!(svc.store().pending_count(&recip.node_id_hex()), 1, "redelivery must de-dupe");
    let _ = svc.handle(
        &recip.node_id(),
        MailRequest::Ack { recipient: recip.node_id_hex(), cursor: 1, grant: Grant::none() },
        2,
        &authorize,
        &check,
    );
    let r3 = svc.handle(
        &sender.node_id(),
        MailRequest::Deliver { envelope: env, grant },
        3,
        &authorize,
        &check,
    );
    assert!(matches!(r3, MailReply::Delivered { duplicate: true }));
    assert_eq!(
        svc.store().pending_count(&recip.node_id_hex()),
        0,
        "post-ack redelivery of a seen id must not reappear"
    );
}

#[test]
fn threaded_view_groups_replies_e2e() {
    let net = Net::new();
    let mb = id("tv-mb");
    let recip = id("tv-rc");
    let sender = id("tv-sn");
    net.install(&mb);
    let sc = client(&net, &sender);
    let root = sc.send(SendOptions {
            to: recip.node_id_hex(),
            subject: "design".into(),
            body: b"v1".to_vec(),
            mailbox: Some(mb.node_id_hex()),
            grant: accept_grant(&recip, &mb),
            ..Default::default()
        })
        .unwrap();
    sc.send(SendOptions {
        to: recip.node_id_hex(),
        subject: "Re: design".into(),
        body: b"v2".to_vec(),
        in_reply_to: root.clone(),
        mailbox: Some(mb.node_id_hex()),
        grant: accept_grant(&recip, &mb),
        ..Default::default()
    })
    .unwrap();
    let rc = client(&net, &recip);
    let (convs, _) = rc.drain_inbox_threaded(&mb.node_id_hex(), 0, Grant::none()).unwrap();
    assert_eq!(convs.len(), 1);
    assert_eq!(convs[0].len(), 2);
    assert_eq!(convs[0].root, root);
}

#[test]
fn attachments_end_to_end_via_mailbox() {
    let net = Net::new();
    let mb = id("att-mb");
    let recip = id("att-rc");
    let sender = id("att-sn");
    net.install(&mb);
    let sc = client(&net, &sender);
    let pdf = Attachment::from_file("report.pdf", vec![0x25, 0x50, 0x44, 0x46, 0xff, 0x00]);
    let txt = Attachment::new("note.txt", "text/plain", b"read me".to_vec());
    sc.send(SendOptions {
        to: recip.node_id_hex(),
        subject: "files".into(),
        body: b"see attached".to_vec(),
        attachments: vec![pdf.clone(), txt.clone()],
        mailbox: Some(mb.node_id_hex()),
        grant: accept_grant(&recip, &mb),
        ..Default::default()
    })
    .unwrap();

    let rc = client(&net, &recip);
    let (msgs, _) = rc.drain_inbox(&mb.node_id_hex(), 0, Grant::none()).unwrap();
    assert_eq!(msgs.len(), 1);
    let env = &msgs[0].envelope;
    assert_eq!(env.body.attachment_cids.len(), 2);
    let all = rc.open_attachments(env).unwrap();
    assert_eq!(all, vec![pdf, txt]);
    assert_eq!(all[0].filename, "report.pdf");
    assert_eq!(all[0].content_type, "application/pdf");
}

#[test]
fn screening_quarantines_stranger_without_postage() {
    let net = Net::new();
    let mb = id("scrn-mb");
    let recip = id("scrn-rc");
    let friend = id("scrn-fr");
    let stranger = id("scrn-st");
    net.install(&mb);
    client(&net, &friend)
        .send(SendOptions {
            to: recip.node_id_hex(),
            subject: "hi".into(),
            body: b"trusted".to_vec(),
            mailbox: Some(mb.node_id_hex()),
            grant: accept_grant(&recip, &mb),
            ..Default::default()
        })
        .unwrap();
    client(&net, &stranger)
        .send(SendOptions {
            to: recip.node_id_hex(),
            subject: "deal".into(),
            body: b"spammy".to_vec(),
            mailbox: Some(mb.node_id_hex()),
            grant: accept_grant(&recip, &mb),
            ..Default::default()
        })
        .unwrap();

    let rc = client(&net, &recip);
    let policy = ScreeningPolicy::new(&recip.node_id_hex()).allow(&friend.node_id_hex());
    let (inbox, spam, _) = rc.screen_inbox(&mb.node_id_hex(), 0, Grant::none(), &policy, |_| None)
        .unwrap();
    assert_eq!(inbox.len(), 1);
    assert_eq!(inbox[0].envelope.body.from, friend.node_id_hex());
    assert_eq!(spam.len(), 1);
    assert_eq!(spam[0].envelope.body.from, stranger.node_id_hex());
}

#[test]
fn postage_lets_a_stranger_reach_the_inbox() {
    let net = Net::new();
    let mb = id("pst-mb");
    let recip = id("pst-rc");
    let stranger = id("pst-st");
    net.install(&mb);
    client(&net, &stranger)
        .send(SendOptions {
            to: recip.node_id_hex(),
            subject: "I paid".into(),
            body: b"legit".to_vec(),
            postage_receipt: "receipt-abc".into(),
            mailbox: Some(mb.node_id_hex()),
            grant: accept_grant(&recip, &mb),
            ..Default::default()
        })
        .unwrap();
    let rc = client(&net, &recip);
    let policy = ScreeningPolicy::new(&recip.node_id_hex())
        .require_postage(credits(1))
        .strict();
    let (inbox, spam, _) = rc.screen_inbox(&mb.node_id_hex(), 0, Grant::none(), &policy, |r| {
            if r == "receipt-abc" { Some(credits(5)) } else { None }
        })
        .unwrap();
    assert_eq!(inbox.len(), 1, "stranger with valid postage reaches the inbox");
    assert!(spam.is_empty());
}

#[test]
fn revocation_taking_effect_after_start_blocks_delivery() {
    let mb = id("rev-mb");
    let recip = id("rev-rc");
    let sender = id("rev-sn");
    let mut svc = MailService::new(MailboxStore::new(mb.node_id(), 100));
    let grant = accept_grant(&recip, &mb);
    let revoked = Cell::new(false);
    let is_revoked = |issuer: &NodeId, nonce: u64| {
        revoked.get() && issuer == &recip.node_id() && nonce == 1
    };
    let gate = |r: &NodeId, p: &NodeId, a: &str, g: &Grant, _now: u64| {
        authorize_unless(r, p, a, g, &is_revoked)
    };
    let env1 = seal_as(
        &sender,
        EnvelopeBody {
            from: String::new(),
            to: recip.node_id_hex(),
            subject: "before".into(),
            body_cid: "ab".repeat(32),
            attachment_cids: vec![],
            in_reply_to: String::new(),
            sent_at: 1,
            postage_receipt: String::new(),
        },
    );
    let r1 = svc.handle(
        &sender.node_id(),
        MailRequest::Deliver { envelope: env1, grant: grant.clone() },
        100,
        &gate,
        &check,
    );
    assert!(matches!(r1, MailReply::Delivered { .. }));
    revoked.set(true);
    let env2 = seal_as(
        &sender,
        EnvelopeBody {
            from: String::new(),
            to: recip.node_id_hex(),
            subject: "after".into(),
            body_cid: "cd".repeat(32),
            attachment_cids: vec![],
            in_reply_to: String::new(),
            sent_at: 2,
            postage_receipt: String::new(),
        },
    );
    let r2 = svc.handle(
        &sender.node_id(),
        MailRequest::Deliver { envelope: env2, grant },
        101,
        &gate,
        &check,
    );
    assert!(matches!(r2, MailReply::Error { .. }), "revoked grant must be rejected");
    assert_eq!(svc.store().pending_count(&recip.node_id_hex()), 1);
}

#[test]
fn mailbox_store_survives_atomic_persist_and_reload() {
    let mut saved: Vec<u8> = Vec::new();
    let mb = id("ap-mb");
    let recip = id("ap-rc");
    let sender = id("ap-sn");
    let mut store = MailboxStore::new(mb.node_id(), 100);
    for i in 0..5u64 {
        let env = seal_as(
            &sender,
            EnvelopeBody {
                from: String::new(),
                to: recip.node_id_hex(),
                subject: format!("m{i}"),
                body_cid: "ab".repeat(32),
                attachment_cids: vec![],
                in_reply_to: String::new(),
                sent_at: i,
                postage_receipt: String::new(),
            },
        );
        store.accept(env, i, &check).unwrap();
        saved = store.try_to_bytes().unwrap();
    }
    let loaded = MailboxStore::from_bytes(&saved).unwrap();
    assert_eq!(loaded.pending_count(&recip.node_id_hex()), 5);
}

#[test]
fn duplicate_delivery_is_idempotent_end_to_end() {
    let net = Net::new();
    let mb = id("id-mb");
    let recip = id("id-rc");
    let sender = id("id-sn");
    net.install(&mb);
    let sc = client(&net, &sender);
    let opts = || SendOptions {
        to: recip.node_id_hex(),
        subject: "same".into(),
        body: b"same body".to_vec(),
        mailbox: Some(mb.node_id_hex()),
        grant: accept_grant(&recip, &mb),
        ..Default::default()
    };
    let a = sc.send(opts()).unwrap();
    let b = sc.send(opts()).unwrap();
    let rc = client(&net, &recip);
    let (msgs, _) = rc.drain_inbox(&mb.node_id_hex(), 0, Grant::none()).unwrap();
    if a == b {
        assert_eq!(msgs.len(), 1, "identical messages must de-dupe");
    } else {
        assert_eq!(msgs.len(), 2);
    }
}
