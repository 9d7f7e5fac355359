use ce_mail::crypto;
use ce_mail::digest::NodeId;
use ce_mail::envelope::{message_id, Envelope, EnvelopeBody};
use ce_mail::proto::{MailReply, MailRequest};
use ce_mail::receipt::{Receipt, ReceiptKind};
use ce_mail::thread::normalize_subject;
use ed25519_dalek::{Signature, Signer, SigningKey, Verifier, VerifyingKey};
use sha2::{Digest, Sha256};

/// A node whose key is made of a tag.
struct Node {
    key: SigningKey,
}

impl Node {
    fn node_id(&self) -> NodeId {
        self.key.verifying_key().to_bytes()
    }

    fn node_id_hex(&self) -> String {
        hex::encode(self.node_id())
    }

    fn secret_bytes(&self) -> [u8; 32] {
        self.key.to_bytes()
    }

    fn sign(&self, message: &[u8]) -> [u8; 64] {
        self.key.sign(message).to_bytes()
    }
}

fn id(tag: &str) -> Node {
    let seed: [u8; 32] = Sha256::digest(tag.as_bytes()).into();
    Node { key: SigningKey::from_bytes(&seed) }
}

fn check(node: &NodeId, message: &[u8], sig: &[u8; 64]) -> bool {
    match VerifyingKey::from_bytes(node) {
        Ok(key) => key.verify(message, &Signature::from_bytes(sig)).is_ok(),
        Err(_) => false,
    }
}

fn seal_as(sender: &Node, body: EnvelopeBody) -> Envelope {
    Envelope::seal(&sender.node_id(), &|m: &[u8]| sender.sign(m), body)
}

/// A stream of bytes that looks random and is the same each time.
struct Stream {
    state: u64,
}

impl Stream {
    fn new(seed: u64) -> Self {
        Stream { state: seed }
    }

    fn next(&mut self) -> u64 {
        self.state = self.state.wrapping_add(0x9e37_79b9_7f4a_7c15);
        let mut z = self.state;
        z = (z ^ (z >> 30)).wrapping_mul(0xbf58_476d_1ce4_e5b9);
        z = (z ^ (z >> 27)).wrapping_mul(0x94d0_49bb_1331_11eb);
        z ^ (z >> 31)
    }

    fn below(&mut self, n: u64) -> usize {
        (self.next() % n) as usize
    }

    fn bytes(&mut self, longest: u64) -> Vec<u8> {
        let n = self.below(longest + 1);
        (0..n).map(|_| self.next() as u8).collect()
    }

    fn text(&mut self, longest: u64) -> String {
        let n = self.below(longest + 1);
        (0..n)
            .map(|_| {
                let pick = self.next();
                if pick % 4 == 0 {
                    char::from_u32((self.next() % 0x11_0000) as u32).unwrap_or('?')
                } else {
                    (32 + (pick / 4 % 95) as u8) as char
                }
            })
            .collect()
    }

    fn hex(&mut self, longest: u64) -> String {
        let n = self.below(longest + 1);
        (0..n).map(|_| char::from_digit((self.next() % 16) as u32, 16).unwrap()).collect()
    }
}

const CASES: u64 = 64;

#[test]
fn seal_open_recovers_plaintext() {
    let recip = id("prop-recip");
    for case in 0..CASES {
        let body = Stream::new(case).bytes(2047);
        let sealed = crypto::seal(&recip.node_id(), &body).unwrap();
        let encoded = crypto::encode_sealed(&sealed);
        let decoded = crypto::decode_sealed(&encoded).unwrap();
        let opened = crypto::open(&recip.secret_bytes(), &decoded).unwrap();
        assert_eq!(opened, body);
    }
}

#[test]
fn envelope_roundtrip_verifies() {
    let snd = id("prop-sender");
    let recip = id("prop-recip");
    for case in 0..CASES {
        let mut s = Stream::new(case);
        let env = seal_as(
            &snd,
            EnvelopeBody {
                from: String::new(),
                to: recip.node_id_hex(),
                subject: s.text(200),
                body_cid: s.hex(64),
                attachment_cids: vec![],
                in_reply_to: s.hex(64),
                sent_at: s.next(),
                postage_receipt: String::new(),
            },
        );
        let back = Envelope::decode(&env.encode()).unwrap();
        assert!(back.verify(&check).is_ok());
        assert_eq!(env.message_id(), back.message_id());
    }
}

#[test]
fn message_id_is_deterministic() {
    let recip = id("prop-recip");
    for case in 0..CASES {
        let mut s = Stream::new(case);
        let body = EnvelopeBody {
            from: "ab".repeat(32),
            to: recip.node_id_hex(),
            subject: s.text(64),
            body_cid: String::new(),
            attachment_cids: vec![],
            in_reply_to: String::new(),
            sent_at: s.next(),
            postage_receipt: String::new(),
        };
        assert_eq!(message_id(&body), message_id(&body.clone()));
    }
}

#[test]
fn decode_sealed_never_panics() {
    for case in 0..CASES {
        let _ = crypto::decode_sealed(&Stream::new(case).bytes(255));
    }
}

#[test]
fn decode_envelope_never_panics() {
    for case in 0..CASES {
        let _ = Envelope::decode(&Stream::new(case).bytes(255));
    }
}

#[test]
fn decode_proto_never_panics() {
    for case in 0..CASES {
        let bytes = Stream::new(case).bytes(255);
        let _ = MailRequest::decode(&bytes);
        let _ = MailReply::decode(&bytes);
        for tag in 0..8u8 {
            let mut tagged = vec![tag, 0, 0, 0];
            tagged.extend_from_slice(&bytes);
            let _ = MailRequest::decode(&tagged);
            let _ = MailReply::decode(&tagged);
        }
    }
}

#[test]
fn tampering_ciphertext_fails() {
    let recip = id("prop-recip");
    for case in 0..CASES {
        let mut s = Stream::new(case);
        let mut body = s.bytes(254);
        body.push(1);
        let mut sealed = crypto::seal(&recip.node_id(), &body).unwrap();
        let i = s.below(sealed.ciphertext.len() as u64);
        sealed.ciphertext[i] ^= 0xff;
        assert!(crypto::open(&recip.secret_bytes(), &sealed).is_err());
    }
}

#[test]
fn normalize_subject_is_idempotent() {
    for case in 0..1000 {
        let subject = Stream::new(case).text(200);
        let once = normalize_subject(&subject);
        let twice = normalize_subject(&once);
        assert_eq!(once, twice);
    }
}

#[test]
fn reply_prefixes_collapse_to_same_normalized_subject() {
    let letters: Vec<char> = ('a'..='z').chain('A'..='Z').collect();
    let others: Vec<char> = letters.iter().copied().chain('0'..='9').chain([' ']).collect();
    for case in 0..CASES {
        let mut s = Stream::new(case);
        let mut core = String::new();
        core.push(letters[s.below(letters.len() as u64)]);
        for _ in 0..s.below(41) {
            core.push(others[s.below(others.len() as u64)]);
        }
        let prefixes = ["Re: ", "Fwd: ", "RE: ", "fw: "];
        let mut subject = core.clone();
        for i in 0..s.below(6) {
            subject = format!("{}{}", prefixes[i % prefixes.len()], subject);
        }
        assert_eq!(normalize_subject(&subject), normalize_subject(&core));
    }
}

#[test]
fn receipt_roundtrip_verifies() {
    let recip = id("prop-recip");
    for case in 0..CASES {
        let mut s = Stream::new(case);
        let kind = if s.next() % 2 == 0 { ReceiptKind::Read } else { ReceiptKind::Delivered };
        let mid = s.hex(64);
        let sign = |m: &[u8]| recip.sign(m);
        let r = Receipt::issue(&recip.node_id(), &sign, &mid, kind, s.next());
        let back = Receipt::decode(&r.encode()).unwrap();
        assert_eq!(r, back);
        assert!(back.verify(&check).is_ok());
    }
}

#[test]
fn decode_receipt_never_panics() {
    for case in 0..CASES {
        let _ = Receipt::decode(&Stream::new(case).bytes(255));
    }
}
