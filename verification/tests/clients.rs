use ce_mail::attachment::Attachment;
use ce_mail::client::{
    attachment_blob, body_blob, screen_messages, verified_envelopes, Keys, MailClient, Message,
    SendAction, SendOptions, BODY_CONTENT_MAGIC, DEFAULT_TIMEOUT_MS, REDACTED_SUBJECT,
};
use ce_mail::digest::NodeId;
use ce_mail::envelope::{Envelope, EnvelopeBody};
use ce_mail::limits::Limits;
use ce_mail::mailbox::{MailboxStore, ABILITY_ACCEPT};
use ce_mail::proto::{Grant, MailReply, MailRequest};
use ce_mail::receipt::{Receipt, ReceiptKind};
use ce_mail::screening::{Amount, ScreeningPolicy, SenderStanding};
use ce_mail::service::MailService;
use ce_mail::thread::{group_threads, Conversation};
use ed25519_dalek::{Signature, Signer, SigningKey, Verifier, VerifyingKey};
use sha2::{Digest, Sha256};
use std::cell::{Cell, RefCell};
use std::collections::HashMap;

/// A node whose key is made of a tag.
struct Node {
    key: SigningKey,
}

impl Node {
    fn node_id(&self) -> NodeId {
        self.key.verifying_key().to_bytes()
    }

    fn node_id_hex(&self) -> String {
        hex::encode(self.node_id())
    }

    fn secret_bytes(&self) -> [u8; 32] {
        self.key.to_bytes()
    }

    fn sign(&self, message: &[u8]) -> [u8; 64] {
        self.key.sign(message).to_bytes()
    }
}

fn id(tag: &str) -> Node {
    let seed: [u8; 32] = Sha256::digest(tag.as_bytes()).into();
    Node { key: SigningKey::from_bytes(&seed) }
}

fn check(node: &NodeId, message: &[u8], sig: &[u8; 64]) -> bool {
    match VerifyingKey::from_bytes(node) {
        Ok(key) => key.verify(message, &Signature::from_bytes(sig)).is_ok(),
        Err(_) => false,
    }
}

fn seal_as(sender: &Node, body: EnvelopeBody) -> Envelope {
    Envelope::seal(&sender.node_id(), &|m: &[u8]| sender.sign(m), body)
}

/// A capability chain of one link: the issuer lets the audience accept mail for it.
fn grant_with_nonce(issuer: &Node, audience: &Node, nonce: u64) -> Grant {
    let mut link: Vec<u8> = Vec::new();
    link.extend_from_slice(&issuer.node_id());
    link.extend_from_slice(&audience.node_id());
    link.extend_from_slice(&nonce.to_le_bytes());
    link.extend_from_slice(ABILITY_ACCEPT.as_bytes());
    let sig = issuer.sign(&link);
    let mut chain: Vec<u8> = 1u64.to_le_bytes().to_vec();
    chain.extend_from_slice(&sig);
    chain.extend_from_slice(&link);
    Grant { chain }
}

fn accept_grant(issuer: &Node, audience: &Node) -> Grant {
    grant_with_nonce(issuer, audience, 1)
}

fn authorize_unless(
    recipient: &NodeId,
    presenter: &NodeId,
    ability: &str,
    grant: &Grant,
    is_revoked: &dyn Fn(&NodeId, u64) -> bool,
) -> Result<(), String> {
    let bytes = &grant.chain;
    if bytes.len() < 8 || bytes[..8] == [0u8; 8] {
        return Err("empty capability chain".to_string());
    }
    let mut sig = [0u8; 64];
    sig.copy_from_slice(&bytes[8..72]);
    let link = &bytes[72..];
    let mut nonce = [0u8; 8];
    nonce.copy_from_slice(&link[64..72]);
    if link[..32] != recipient[..] {
        return Err("chain is not rooted at the recipient".to_string());
    }
    if link[32..64] != presenter[..] {
        return Err("chain is for another audience".to_string());
    }
    if &link[72..] != ability.as_bytes() {
        return Err("ability is not granted".to_string());
    }
    if is_revoked(recipient, u64::from_le_bytes(nonce)) {
        return Err("capability was revoked".to_string());
    }
    if !check(recipient, link, &sig) {
        return Err("capability is forged".to_string());
    }
    Ok(())
}

fn authorize(
    recipient: &NodeId,
    presenter: &NodeId,
    ability: &str,
    grant: &Grant,
    _now: u64,
) -> Result<(), String> {
    authorize_unless(recipient, presenter, ability, grant, &|_: &NodeId, _: u64| false)
}

/// A network in memory: blobs by their hash, and a mailbox service for each node that runs one.
struct Net {
    blobs: RefCell<HashMap<String, Vec<u8>>>,
    services: RefCell<HashMap<String, MailService>>,
    drop_peer: Cell<bool>,
    lose_blobs: Cell<bool>,
}

impl Net {
    fn new() -> Self {
        Net {
            blobs: RefCell::new(HashMap::new()),
            services: RefCell::new(HashMap::new()),
            drop_peer: Cell::new(false),
            lose_blobs: Cell::new(false),
        }
    }

    fn install(&self, node: &Node) {
        let store = MailboxStore::new(node.node_id(), 100);
        self.services.borrow_mut().insert(node.node_id_hex(), MailService::new(store));
    }

    fn put_blob(&self, bytes: Vec<u8>) -> String {
        let cid = hex::encode(Sha256::digest(&bytes));
        self.blobs.borrow_mut().insert(cid.clone(), bytes);
        cid
    }

    fn get_blob(&self, cid: &str) -> Option<Vec<u8>> {
        if self.lose_blobs.get() {
            return None;
        }
        self.blobs.borrow().get(cid).cloned()
    }

    fn request(&self, me: &NodeId, to: &str, request: &MailRequest) -> Result<MailReply, String> {
        if self.drop_peer.get() {
            return Err("dropped peer".to_string());
        }
        let mut services = self.services.borrow_mut();
        let service = services.get_mut(to).ok_or_else(|| format!("no service for {to}"))?;
        let request = MailRequest::decode(&request.encode()).map_err(|e| e.message())?;
        let reply = service.handle(me, request, 1000, &authorize, &check);
        MailReply::decode(&reply.encode()).map_err(|e| e.message())
    }

    fn holds_in_clear(&self, secret: &[u8]) -> bool {
        self.blobs.borrow().values().any(|b| b.windows(secret.len()).any(|w| w == secret))
    }
}

/// A client of one node on the network.
struct Client<'a> {
    net: &'a Net,
    who: &'a Node,
    inner: MailClient,
}

fn client<'a>(net: &'a Net, who: &'a Node) -> Client<'a> {
    let keys = Keys { node_id: who.node_id(), secret: who.secret_bytes() };
    Client { net, who, inner: MailClient::new(keys) }
}

#[allow(dead_code)]
impl<'a> Client<'a> {
    fn with_limits(self, limits: Limits) -> Self {
        Client { inner: self.inner.with_limits(limits), ..self }
    }

    fn ask(&self, to: &str, request: &MailRequest) -> Result<MailReply, String> {
        self.net.request(&self.who.node_id(), to, request)
    }

    fn send(&self, options: SendOptions) -> Result<String, String> {
        let mut outgoing = self.inner.send(options).map_err(|e| e.message())?;
        loop {
            let action = self
                .inner
                .next_action(&outgoing, 1_700_000_000, &|m: &[u8]| self.who.sign(m))
                .map_err(|e| e.message())?;
            match action {
                SendAction::StoreBlob { bytes } => {
                    let cid = self.net.put_blob(bytes);
                    outgoing.blob_stored(cid);
                }
                SendAction::Deliver { message_id, to, request } => {
                    let reply = self.ask(&to, &request)?;
                    return self.inner.delivered(message_id, reply).map_err(|e| e.message());
                }
            }
        }
    }

    fn messages(&self, envelopes: Vec<Envelope>) -> Vec<Message> {
        verified_envelopes(envelopes, &check)
            .into_iter()
            .map(|e| {
                let blob = body_blob(&e).and_then(|cid| self.net.get_blob(cid));
                self.inner.compose_message(e, blob)
            })
            .collect()
    }

    fn drain_inbox(
        &self,
        mailbox: &str,
        since: usize,
        grant: Grant,
    ) -> Result<(Vec<Message>, usize), String> {
        let reply = self.ask(mailbox, &self.inner.drain_request(since, grant))?;
        let (envelopes, cursor) = self.inner.drained(reply).map_err(|e| e.message())?;
        Ok((self.messages(envelopes), cursor))
    }

    fn drain_inbox_page(
        &self,
        mailbox: &str,
        since: usize,
        limit: usize,
        grant: Grant,
    ) -> Result<(Vec<Message>, usize, bool), String> {
        let reply = self.ask(mailbox, &self.inner.drain_page_request(since, limit, grant))?;
        let (envelopes, cursor, more) =
            self.inner.drained_page(reply).map_err(|e| e.message())?;
        Ok((self.messages(envelopes), cursor, more))
    }

    fn drain_inbox_threaded(
        &self,
        mailbox: &str,
        since: usize,
        grant: Grant,
    ) -> Result<(Vec<Conversation>, usize), String> {
        let (messages, cursor) = self.drain_inbox(mailbox, since, grant)?;
        let envelopes: Vec<Envelope> = messages.into_iter().map(|m| m.envelope).collect();
        Ok((group_threads(&envelopes), cursor))
    }

    fn screen_inbox<F: Fn(&str) -> Option<Amount>>(
        &self,
        mailbox: &str,
        since: usize,
        grant: Grant,
        policy: &ScreeningPolicy,
        verify_postage: F,
    ) -> Result<(Vec<Message>, Vec<Message>, usize), String> {
        let (messages, cursor) = self.drain_inbox(mailbox, since, grant)?;
        let standings = vec![SenderStanding::Newcomer; messages.len()];
        let (inbox, spam) = screen_messages(policy, messages, &standings, &verify_postage);
        Ok((inbox, spam, cursor))
    }

    fn send_receipt(
        &self,
        mailbox: &str,
        for_sender: &str,
        message_id: &str,
        kind: ReceiptKind,
        grant: Grant,
    ) -> Result<bool, String> {
        let request = self.inner.receipt_request(
            for_sender,
            message_id,
            kind,
            grant,
            1_700_000_000,
            &|m: &[u8]| self.who.sign(m),
        );
        let reply = self.ask(mailbox, &request)?;
        self.inner.receipt_deposited(reply).map_err(|e| e.message())
    }

    fn collect_receipts(&self, mailbox: &str, grant: Grant) -> Result<Vec<Receipt>, String> {
        let reply = self.ask(mailbox, &self.inner.collect_request(grant))?;
        self.inner.collected(reply, &check).map_err(|e| e.message())
    }

    fn ack(&self, mailbox: &str, cursor: usize, grant: Grant) -> Result<usize, String> {
        let reply = self.ask(mailbox, &self.inner.ack_request(cursor, grant))?;
        self.inner.acked(reply).map_err(|e| e.message())
    }

    fn open_body(&self, envelope: &Envelope) -> Result<Vec<u8>, String> {
        let blob = match body_blob(envelope) {
            None => vec![],
            Some(cid) => self.net.get_blob(cid).ok_or_else(|| format!("no blob {cid}"))?,
        };
        self.inner.open_body(envelope, &blob).map_err(|e| e.message())
    }

    fn open_attachment(&self, envelope: &Envelope, index: usize) -> Result<Attachment, String> {
        let cid = attachment_blob(envelope, index).map_err(|e| e.message())?;
        let blob = self.net.get_blob(cid).ok_or_else(|| format!("no blob {cid}"))?;
        self.inner.open_attachment(&blob).map_err(|e| e.message())
    }

    fn open_attachments(&self, envelope: &Envelope) -> Result<Vec<Attachment>, String> {
        (0..envelope.attachment_count()).map(|i| self.open_attachment(envelope, i)).collect()
    }
}

#[test]
fn offline_store_and_forward_replay() {
    let net = Net::new();
    let mailbox = id("e2e-mb");
    let recipient = id("e2e-rc");
    let sender = id("e2e-sn");
    net.install(&mailbox);

    let sender_client = client(&net, &sender);

    let grant = accept_grant(&recipient, &mailbox);
    let mid = sender_client.send(SendOptions {
            to: recipient.node_id_hex(),
            subject: "offline hello".into(),
            body: b"see you when you're back online".to_vec(),
            mailbox: Some(mailbox.node_id_hex()),
            grant,
            ..Default::default()
        })
        .unwrap();
    assert_eq!(mid.len(), 64);
    let recip_client = client(&net, &recipient);
    let (msgs, cursor) = recip_client.drain_inbox(&mailbox.node_id_hex(), 0, Grant::none()).unwrap();
    assert_eq!(msgs.len(), 1);
    assert_eq!(msgs[0].body_text(), "see you when you're back online");
    assert_eq!(msgs[0].envelope.body.from, sender.node_id_hex());
    let removed = recip_client.ack(&mailbox.node_id_hex(), cursor, Grant::none()).unwrap();
    assert_eq!(removed, 1);
    let (after, _) = recip_client.drain_inbox(&mailbox.node_id_hex(), 0, Grant::none()).unwrap();
    assert!(after.is_empty());
}

#[test]
fn send_to_unauthorized_mailbox_is_rejected() {
    let net = Net::new();
    let mailbox = id("u-mb");
    let recipient = id("u-rc");
    let sender = id("u-sn");
    net.install(&mailbox);
    let sclient = client(&net, &sender);
    let r = sclient.send(SendOptions {
            to: recipient.node_id_hex(),
            subject: "spam?".into(),
            body: b"x".to_vec(),
            mailbox: Some(mailbox.node_id_hex()),
            grant: Grant::none(),
            ..Default::default()
        });
    assert!(r.is_err());
}

#[test]
fn dropped_peer_send_errors_gracefully() {
    let net = Net::new();
    let mailbox = id("d-mb");
    let recipient = id("d-rc");
    let sender = id("d-sn");
    net.install(&mailbox);
    net.drop_peer.set(true);
    let sclient = client(&net, &sender);
    let r = sclient.send(SendOptions {
            to: recipient.node_id_hex(),
            subject: "x".into(),
            body: b"x".to_vec(),
            mailbox: Some(mailbox.node_id_hex()),
            grant: accept_grant(&recipient, &mailbox),
            ..Default::default()
        });
    assert!(r.is_err());
}

#[test]
fn missing_blob_on_drain_yields_empty_body_not_panic() {
    let net = Net::new();
    let mailbox = id("mb-blob");
    let recipient = id("rc-blob");
    let sender = id("sn-blob");
    net.install(&mailbox);
    let sclient = client(&net, &sender);
    sclient.send(SendOptions {
            to: recipient.node_id_hex(),
            subject: "body lost".into(),
            body: b"this body will vanish".to_vec(),
            mailbox: Some(mailbox.node_id_hex()),
            grant: accept_grant(&recipient, &mailbox),
            ..Default::default()
        })
        .unwrap();
    net.lose_blobs.set(true);
    let rclient = client(&net, &recipient);
    let (msgs, _) = rclient.drain_inbox(&mailbox.node_id_hex(), 0, Grant::none()).unwrap();
    assert_eq!(msgs.len(), 1);
    assert!(msgs[0].body.is_empty());
}

#[test]
fn paginated_drain_covers_all_messages() {
    let net = Net::new();
    let mailbox = id("pg-mb");
    let recipient = id("pg-rc");
    let sender = id("pg-sn");
    net.install(&mailbox);
    let sclient = client(&net, &sender);
    for i in 0..5 {
        sclient.send(SendOptions {
                to: recipient.node_id_hex(),
                subject: format!("p{i}"),
                body: format!("b{i}").into_bytes(),
                mailbox: Some(mailbox.node_id_hex()),
                grant: accept_grant(&recipient, &mailbox),
                ..Default::default()
            })
            .unwrap();
    }
    let rclient = client(&net, &recipient);
    let mut cursor = 0;
    let mut bodies = Vec::new();
    loop {
        let (msgs, next, more) =
            rclient.drain_inbox_page(&mailbox.node_id_hex(), cursor, 2, Grant::none()).unwrap();
        assert!(msgs.len() <= 2);
        for m in msgs {
            bodies.push(m.body_text());
        }
        cursor = next;
        if !more {
            break;
        }
    }
    assert_eq!(bodies, (0..5).map(|i| format!("b{i}")).collect::<Vec<_>>());
}

#[test]
fn read_receipt_round_trip() {
    let net = Net::new();
    let mailbox = id("rcpt-mb");
    let recipient = id("rcpt-rc");
    let sender = id("rcpt-sn");
    net.install(&mailbox);
    let sclient = client(&net, &sender);
    let mid = sclient.send(SendOptions {
            to: recipient.node_id_hex(),
            subject: "please ack".into(),
            body: b"read me".to_vec(),
            mailbox: Some(mailbox.node_id_hex()),
            grant: accept_grant(&recipient, &mailbox),
            ..Default::default()
        })
        .unwrap();

    let rclient = client(&net, &recipient);
    let (msgs, _) = rclient.drain_inbox(&mailbox.node_id_hex(), 0, Grant::none()).unwrap();
    assert_eq!(msgs.len(), 1);
    let dup = rclient.send_receipt(
            &mailbox.node_id_hex(),
            &sender.node_id_hex(),
            &msgs[0].id(),
            ReceiptKind::Read,
            accept_grant(&sender, &mailbox),
        )
        .unwrap();
    assert!(!dup);
    let receipts = sclient.collect_receipts(&mailbox.node_id_hex(), Grant::none()).unwrap();
    assert_eq!(receipts.len(), 1);
    assert_eq!(receipts[0].body.message_id, mid);
    assert_eq!(receipts[0].body.by, recipient.node_id_hex());
    assert_eq!(receipts[0].body.kind, ReceiptKind::Read);
    assert!(receipts[0].verify(&check).is_ok());
}

#[test]
fn duplicate_receipt_deposit_reports_duplicate() {
    let net = Net::new();
    let mailbox = id("dr-mb");
    let recipient = id("dr-rc");
    let sender = id("dr-sn");
    net.install(&mailbox);
    let rclient = client(&net, &recipient);
    let mid = "ab".repeat(32);
    let first = rclient.send_receipt(
            &mailbox.node_id_hex(),
            &sender.node_id_hex(),
            &mid,
            ReceiptKind::Delivered,
            accept_grant(&sender, &mailbox),
        )
        .unwrap();
    assert!(!first);
    let second = rclient.send_receipt(
            &mailbox.node_id_hex(),
            &sender.node_id_hex(),
            &mid,
            ReceiptKind::Delivered,
            accept_grant(&sender, &mailbox),
        )
        .unwrap();
    assert!(second, "second identical receipt deposit must be a duplicate");
}

#[test]
fn threaded_drain_groups_conversation() {
    let net = Net::new();
    let mailbox = id("td-mb");
    let recipient = id("td-rc");
    let sender = id("td-sn");
    net.install(&mailbox);
    let sclient = client(&net, &sender);
    let root = sclient.send(SendOptions {
            to: recipient.node_id_hex(),
            subject: "topic".into(),
            body: b"start".to_vec(),
            mailbox: Some(mailbox.node_id_hex()),
            grant: accept_grant(&recipient, &mailbox),
            ..Default::default()
        })
        .unwrap();
    sclient.send(SendOptions {
            to: recipient.node_id_hex(),
            subject: "Re: topic".into(),
            body: b"continued".to_vec(),
            in_reply_to: root.clone(),
            mailbox: Some(mailbox.node_id_hex()),
            grant: accept_grant(&recipient, &mailbox),
            ..Default::default()
        })
        .unwrap();
    sclient.send(SendOptions {
            to: recipient.node_id_hex(),
            subject: "unrelated".into(),
            body: b"other".to_vec(),
            mailbox: Some(mailbox.node_id_hex()),
            grant: accept_grant(&recipient, &mailbox),
            ..Default::default()
        })
        .unwrap();

    let rclient = client(&net, &recipient);
    let (convs, _) = rclient.drain_inbox_threaded(&mailbox.node_id_hex(), 0, Grant::none()).unwrap();
    assert_eq!(convs.len(), 2);
    let topic = convs.iter().find(|c| c.root == root).unwrap();
    assert_eq!(topic.len(), 2);
}

#[test]
fn attachments_round_trip_e2e() {
    let net = Net::new();
    let mailbox = id("att-mb");
    let recipient = id("att-rc");
    let sender = id("att-sn");
    net.install(&mailbox);
    let sclient = client(&net, &sender);
    let a1 = Attachment::new("notes.txt", "text/plain", b"hello attachment".to_vec());
    let a2 = Attachment::from_file("data.bin", vec![0u8, 1, 2, 3, 255]);
    sclient.send(SendOptions {
            to: recipient.node_id_hex(),
            subject: "with files".into(),
            body: b"see attached".to_vec(),
            attachments: vec![a1.clone(), a2.clone()],
            mailbox: Some(mailbox.node_id_hex()),
            grant: accept_grant(&recipient, &mailbox),
            ..Default::default()
        })
        .unwrap();

    let rclient = client(&net, &recipient);
    let (msgs, _) = rclient.drain_inbox(&mailbox.node_id_hex(), 0, Grant::none()).unwrap();
    assert_eq!(msgs.len(), 1);
    let env = &msgs[0].envelope;
    assert_eq!(env.attachment_count(), 2);
    assert_eq!(msgs[0].body_text(), "see attached");
    let got1 = rclient.open_attachment(env, 0).unwrap();
    let got2 = rclient.open_attachment(env, 1).unwrap();
    assert_eq!(got1, a1);
    assert_eq!(got2, a2);
    let all = rclient.open_attachments(env).unwrap();
    assert_eq!(all, vec![a1, a2]);
    assert!(rclient.open_attachment(env, 9).is_err());
}

#[test]
fn attachment_plaintext_never_in_stored_blob() {
    let net = Net::new();
    let mailbox = id("att-sec-mb");
    let recipient = id("att-sec-rc");
    let sender = id("att-sec-sn");
    net.install(&mailbox);
    let sclient = client(&net, &sender);
    let secret = b"confidential-attachment-marker-9f3a";
    sclient.send(SendOptions {
            to: recipient.node_id_hex(),
            subject: "sealed file".into(),
            attachments: vec![Attachment::new("s.bin", "application/octet-stream", secret.to_vec())],
            mailbox: Some(mailbox.node_id_hex()),
            grant: accept_grant(&recipient, &mailbox),
            ..Default::default()
        })
        .unwrap();
    let leaked = net.holds_in_clear(secret);
    assert!(!leaked, "attachment plaintext leaked into a stored blob");
    let attacker = id("att-sec-x");
    let aclient = client(&net, &attacker);
    let rclient = client(&net, &recipient);
    let (msgs, _) = rclient.drain_inbox(&mailbox.node_id_hex(), 0, Grant::none()).unwrap();
    assert!(aclient.open_attachment(&msgs[0].envelope, 0).is_err());
}

#[test]
fn oversized_body_send_is_rejected() {
    let net = Net::new();
    let recipient = id("ob-rc");
    let sender = id("ob-sn");
    let sclient = client(&net, &sender)
    .with_limits(Limits { max_body_bytes: 8, ..Default::default() });
    let r = sclient.send(SendOptions {
            to: recipient.node_id_hex(),
            subject: "big".into(),
            body: vec![0u8; 100],
            ..Default::default()
        });
    assert!(r.is_err());
    assert!(net.blobs.borrow().is_empty());
}

#[test]
fn sealed_subject_is_confidential_and_recovered() {
    let net = Net::new();
    let mailbox = id("ss-mb");
    let recipient = id("ss-rc");
    let sender = id("ss-sn");
    net.install(&mailbox);
    let sclient = client(&net, &sender);
    let real_subject = "Acquisition terms — confidential";
    sclient.send(SendOptions {
            to: recipient.node_id_hex(),
            subject: real_subject.into(),
            body: b"the body".to_vec(),
            seal_subject: true,
            mailbox: Some(mailbox.node_id_hex()),
            grant: accept_grant(&recipient, &mailbox),
            ..Default::default()
        })
        .unwrap();
    let rclient = client(&net, &recipient);
    let (msgs, _) = rclient.drain_inbox(&mailbox.node_id_hex(), 0, Grant::none()).unwrap();
    assert_eq!(msgs.len(), 1);
    assert_eq!(msgs[0].envelope.body.subject, REDACTED_SUBJECT);
    assert_eq!(msgs[0].subject(), real_subject);
    assert_eq!(msgs[0].body_text(), "the body");
    let leaked = net.holds_in_clear(real_subject.as_bytes());
    assert!(!leaked, "sealed subject leaked into a stored blob");
}

#[test]
fn unsealed_subject_is_plain_and_default_path_unchanged() {
    let net = Net::new();
    let mailbox = id("us-mb");
    let recipient = id("us-rc");
    let sender = id("us-sn");
    net.install(&mailbox);
    let sclient = client(&net, &sender);
    sclient.send(SendOptions {
            to: recipient.node_id_hex(),
            subject: "plain subject".into(),
            body: b"hi".to_vec(),
            mailbox: Some(mailbox.node_id_hex()),
            grant: accept_grant(&recipient, &mailbox),
            ..Default::default()
        })
        .unwrap();
    let rclient = client(&net, &recipient);
    let (msgs, _) = rclient.drain_inbox(&mailbox.node_id_hex(), 0, Grant::none()).unwrap();
    assert_eq!(msgs[0].envelope.body.subject, "plain subject");
    assert_eq!(msgs[0].subject(), "plain subject");
    assert!(msgs[0].sealed_subject.is_none());
}

#[test]
fn screen_inbox_separates_contact_from_stranger() {
    let net = Net::new();
    let mailbox = id("sc-mb");
    let recipient = id("sc-rc");
    let friend = id("sc-fr");
    let stranger = id("sc-st");
    net.install(&mailbox);
    let fclient = client(&net, &friend);
    fclient.send(SendOptions {
            to: recipient.node_id_hex(),
            subject: "hi from friend".into(),
            body: b"trusted".to_vec(),
            mailbox: Some(mailbox.node_id_hex()),
            grant: accept_grant(&recipient, &mailbox),
            ..Default::default()
        })
        .unwrap();
    let stclient = client(&net, &stranger);
    stclient.send(SendOptions {
            to: recipient.node_id_hex(),
            subject: "buy now".into(),
            body: b"spam".to_vec(),
            mailbox: Some(mailbox.node_id_hex()),
            grant: accept_grant(&recipient, &mailbox),
            ..Default::default()
        })
        .unwrap();

    let rclient = client(&net, &recipient);
    let policy = ScreeningPolicy::new(&recipient.node_id_hex()).allow(&friend.node_id_hex());
    let (inbox, spam, _) = rclient.screen_inbox(&mailbox.node_id_hex(), 0, Grant::none(), &policy, |_| None)
        .unwrap();
    assert_eq!(inbox.len(), 1);
    assert_eq!(inbox[0].envelope.body.from, friend.node_id_hex());
    assert_eq!(spam.len(), 1);
    assert_eq!(spam[0].envelope.body.from, stranger.node_id_hex());
}

#[test]
fn bodiless_ping_stores_no_blob() {
    let net = Net::new();
    let mailbox = id("p-mb");
    let recipient = id("p-rc");
    let sender = id("p-sn");
    net.install(&mailbox);
    let sclient = client(&net, &sender);
    sclient.send(SendOptions {
            to: recipient.node_id_hex(),
            subject: "ping".into(),
            body: vec![],
            mailbox: Some(mailbox.node_id_hex()),
            grant: accept_grant(&recipient, &mailbox),
            ..Default::default()
        })
        .unwrap();
    assert!(net.blobs.borrow().is_empty());
    let rclient = client(&net, &recipient);
    let (msgs, _) = rclient.drain_inbox(&mailbox.node_id_hex(), 0, Grant::none()).unwrap();
    assert_eq!(msgs.len(), 1);
    assert!(msgs[0].body.is_empty());
}

fn reply_error(r: Result<String, String>) -> String {
    r.unwrap_err()
}

#[test]
fn what_cannot_be_sent_is_refused_with_its_reason() {
    let net = Net::new();
    let sender = id("no-s");
    let recipient = id("no-r");
    let small = Limits {
        max_body_bytes: 3,
        max_attachments: 1,
        max_attachment_bytes: 2,
        ..Default::default()
    };
    let c = client(&net, &sender).with_limits(small);
    let to = recipient.node_id_hex();
    let base = || SendOptions { to: to.clone(), ..Default::default() };
    let att = |n: usize| Attachment::new("f\"x", "t", vec![0; n]);
    assert_eq!(
        reply_error(c.send(SendOptions { to: "zz".into(), ..base() })),
        "node id is not valid hex"
    );
    assert_eq!(
        reply_error(c.send(SendOptions { body: vec![0; 4], ..base() })),
        "body too large: 4 > 3 bytes"
    );
    assert_eq!(
        reply_error(c.send(SendOptions { attachments: vec![att(1), att(1)], ..base() })),
        "too many attachments: 2 > 1"
    );
    assert_eq!(
        reply_error(c.send(SendOptions { attachments: vec![att(3)], ..base() })),
        "attachment \"f\\\"x\" too large: 3 > 2 bytes"
    );
    let mut off = [0u8; 32];
    off[0] = 2;
    assert_eq!(
        reply_error(c.send(SendOptions {
            to: hex::encode(off),
            body: vec![1],
            ..Default::default()
        })),
        "node id is not a valid Ed25519 public key"
    );
    assert!(net.blobs.borrow().is_empty());
}

#[test]
fn the_delivered_envelope_names_the_blobs_in_order() {
    let net = Net::new();
    let sender = id("ord-s");
    let recipient = id("ord-r");
    let c = client(&net, &sender);
    let grant = Grant { chain: vec![9; 9] };
    let mut outgoing = c
        .inner
        .send(SendOptions {
            to: recipient.node_id_hex(),
            subject: "s".into(),
            body: b"b".to_vec(),
            attachments: vec![Attachment::new("a", "t", vec![1])],
            in_reply_to: "parent".into(),
            postage_receipt: "paid".into(),
            mailbox: Some("box".into()),
            grant: grant.clone(),
            ..Default::default()
        })
        .unwrap();
    let sign = |m: &[u8]| sender.sign(m);
    for cid in ["one", "two"] {
        assert!(matches!(
            c.inner.next_action(&outgoing, 5, &sign),
            Ok(SendAction::StoreBlob { .. })
        ));
        outgoing.blob_stored(cid.to_string());
    }
    match c.inner.next_action(&outgoing, 5, &sign).unwrap() {
        SendAction::Deliver { message_id, to, request: MailRequest::Deliver { envelope, grant: g } } => {
            assert_eq!(to, "box");
            assert_eq!(g, grant);
            assert_eq!(message_id, envelope.message_id());
            assert!(envelope.verify(&check).is_ok());
            let expected = EnvelopeBody {
                from: sender.node_id_hex(),
                to: recipient.node_id_hex(),
                subject: "s".into(),
                body_cid: "one".into(),
                attachment_cids: vec!["two".into()],
                in_reply_to: "parent".into(),
                sent_at: 5,
                postage_receipt: "paid".into(),
            };
            assert_eq!(envelope.body, expected);
        }
        _ => panic!("expected a delivery"),
    }
}

#[test]
fn without_a_mailbox_the_recipient_is_asked_and_no_grant_is_shown() {
    let net = Net::new();
    let sender = id("dir-s");
    let recipient = id("dir-r");
    let c = client(&net, &sender);
    let outgoing = c
        .inner
        .send(SendOptions {
            to: recipient.node_id_hex(),
            subject: "ping".into(),
            grant: Grant { chain: vec![9; 9] },
            ..Default::default()
        })
        .unwrap();
    match c.inner.next_action(&outgoing, 5, &|m: &[u8]| sender.sign(m)).unwrap() {
        SendAction::Deliver { to, request: MailRequest::Deliver { grant, .. }, .. } => {
            assert_eq!(to, recipient.node_id_hex());
            assert_eq!(grant, Grant::none());
        }
        _ => panic!("expected a delivery"),
    }
}

#[test]
fn replies_to_another_question_are_errors() {
    let net = Net::new();
    let who = id("unexp");
    let c = client(&net, &who).inner;
    let odd = || MailReply::Receipts { receipts: vec![] };
    assert_eq!(
        c.delivered("m".into(), odd()).unwrap_err().message(),
        "unexpected reply to Deliver"
    );
    assert_eq!(c.drained(odd()).unwrap_err().message(), "unexpected reply to Drain");
    assert_eq!(c.drained_page(odd()).unwrap_err().message(), "unexpected reply to DrainPage");
    assert_eq!(c.acked(odd()).unwrap_err().message(), "unexpected reply to Ack");
    assert_eq!(
        c.receipt_deposited(odd()).unwrap_err().message(),
        "unexpected reply to PutReceipt"
    );
    let other = MailReply::Acked { removed: 1 };
    assert_eq!(
        c.collected(other, &check).unwrap_err().message(),
        "unexpected reply to CollectReceipts"
    );
    let no = || MailReply::Error { message: "no".into() };
    assert_eq!(c.delivered("m".into(), no()).unwrap_err().message(), "delivery rejected: no");
    assert_eq!(c.drained(no()).unwrap_err().message(), "drain rejected: no");
    assert_eq!(c.drained_page(no()).unwrap_err().message(), "drain page rejected: no");
    assert_eq!(c.acked(no()).unwrap_err().message(), "ack rejected: no");
    assert_eq!(c.receipt_deposited(no()).unwrap_err().message(), "receipt rejected: no");
    assert_eq!(c.collected(no(), &check).unwrap_err().message(), "collect rejected: no");
    assert_eq!(c.delivered("m".into(), MailReply::Delivered { duplicate: true }), Ok("m".into()));
}

#[test]
fn envelopes_and_receipts_that_do_not_verify_are_left_out() {
    let net = Net::new();
    let sender = id("bad-s");
    let c = client(&net, &sender);
    let good = seal_as(
        &sender,
        EnvelopeBody {
            from: String::new(),
            to: "t".into(),
            subject: "s".into(),
            body_cid: String::new(),
            attachment_cids: vec![],
            in_reply_to: String::new(),
            sent_at: 1,
            postage_receipt: String::new(),
        },
    );
    let mut bad = good.clone();
    bad.body.subject = "forged".into();
    let kept = verified_envelopes(vec![bad.clone(), good.clone(), bad], &check);
    assert_eq!(kept.len(), 1);
    assert_eq!(kept[0].message_id(), good.message_id());
    let sign = |m: &[u8]| sender.sign(m);
    let r = Receipt::issue(&sender.node_id(), &sign, "m", ReceiptKind::Read, 1);
    let mut forged = r.clone();
    forged.body.at = 2;
    let got = c.inner.collected(MailReply::Receipts { receipts: vec![forged, r.clone()] }, &check);
    assert_eq!(got, Ok(vec![r]));
}

#[test]
fn a_body_that_is_no_utf8_is_shown_with_replacements() {
    let net = Net::new();
    let mailbox = id("utf-mb");
    let recipient = id("utf-rc");
    let sender = id("utf-sn");
    net.install(&mailbox);
    client(&net, &sender)
        .send(SendOptions {
            to: recipient.node_id_hex(),
            subject: "raw".into(),
            body: vec![b'a', 0xff, b'b'],
            mailbox: Some(mailbox.node_id_hex()),
            grant: accept_grant(&recipient, &mailbox),
            ..Default::default()
        })
        .unwrap();
    let r = client(&net, &recipient);
    let (msgs, _) = r.drain_inbox(&mailbox.node_id_hex(), 0, Grant::none()).unwrap();
    assert_eq!(msgs[0].body, vec![b'a', 0xff, b'b']);
    assert_eq!(msgs[0].body_text(), "a\u{fffd}b");
}

#[test]
fn a_body_that_only_starts_like_a_sealed_subject_is_a_body() {
    let net = Net::new();
    let mailbox = id("mag-mb");
    let recipient = id("mag-rc");
    let sender = id("mag-sn");
    net.install(&mailbox);
    let body = vec![BODY_CONTENT_MAGIC, 1, 2, 3];
    client(&net, &sender)
        .send(SendOptions {
            to: recipient.node_id_hex(),
            subject: "raw".into(),
            body: body.clone(),
            mailbox: Some(mailbox.node_id_hex()),
            grant: accept_grant(&recipient, &mailbox),
            ..Default::default()
        })
        .unwrap();
    let r = client(&net, &recipient);
    let (msgs, _) = r.drain_inbox(&mailbox.node_id_hex(), 0, Grant::none()).unwrap();
    assert_eq!(msgs[0].body, body);
    assert!(msgs[0].sealed_subject.is_none());
}

#[test]
fn clients_have_a_timeout_and_a_name() {
    let net = Net::new();
    let who = id("name");
    let c = client(&net, &who).inner;
    assert_eq!(c.timeout_ms(), DEFAULT_TIMEOUT_MS);
    assert_eq!(c.node_id_hex(), who.node_id_hex());
    assert_eq!(c.with_timeout(5).timeout_ms(), 5);
}

#[test]
fn opening_a_message_reports_what_composing_it_forgives() {
    let net = Net::new();
    let sender = id("open-s");
    let recipient = id("open-r");
    let c = client(&net, &recipient).inner;
    let body = |cid: &str| EnvelopeBody {
        from: String::new(),
        to: recipient.node_id_hex(),
        subject: "s".into(),
        body_cid: cid.into(),
        attachment_cids: vec![],
        in_reply_to: String::new(),
        sent_at: 1,
        postage_receipt: String::new(),
    };
    let with_body = seal_as(&sender, body("cid"));
    let without = seal_as(&sender, body(""));
    let garbage = [1u8, 2, 3];
    assert_eq!(
        c.open_message(&with_body, &garbage).unwrap_err().message(),
        "malformed sealed body"
    );
    assert!(c.open_body(&with_body, &garbage).is_err());
    assert!(c.compose_message(with_body.clone(), Some(garbage.to_vec())).body.is_empty());
    assert!(c.open_message(&without, &garbage).unwrap().body.is_empty());
    assert_eq!(c.open_body(&without, &garbage), Ok(vec![]));
    let sealed = ce_mail::crypto::seal(&recipient.node_id(), b"hi").unwrap();
    let blob = ce_mail::crypto::encode_sealed(&sealed);
    let m = c.open_message(&with_body, &blob).unwrap();
    assert_eq!(m.body, b"hi");
    assert_eq!(m.id(), with_body.message_id());
    assert_eq!(c.open_body(&with_body, &blob), Ok(b"hi".to_vec()));
}

#[test]
fn an_attachment_is_named_by_its_index() {
    let sender = id("idx-s");
    let env = seal_as(
        &sender,
        EnvelopeBody {
            from: String::new(),
            to: "t".into(),
            subject: "s".into(),
            body_cid: String::new(),
            attachment_cids: vec!["one".into(), String::new()],
            in_reply_to: String::new(),
            sent_at: 1,
            postage_receipt: String::new(),
        },
    );
    assert_eq!(attachment_blob(&env, 0).unwrap(), "one");
    assert_eq!(attachment_blob(&env, 1).unwrap_err().message(), "attachment 1 has no CID");
    assert_eq!(attachment_blob(&env, 2).unwrap_err().message(), "attachment index 2 out of range");
    assert!(body_blob(&env).is_none());
}
