//! The envelope: the small signed metadata that travels over the mesh.
//!
//! A message is a sealed body and sealed attachments, stored as blobs and named by their content
//! address (CID), and an envelope that names them. The envelope is signed by its sender, is what a
//! mailbox stores for a recipient who is away, and never carries the body itself.

use crate::digest::{array_of_32, array_of_64, from_hex, sha256_of, to_hex, NodeId};
use crate::error::{Format, MailError, NodeIdError, SignatureError};
use crate::text::{text_of, trimmed};
use crate::wire::{write_text, Wire};
use vstd::prelude::*;
use vstd::slice::slice_to_vec;

verus! {

/// The tag in front of what an envelope's signature is over, so that it is never taken for the
/// signature of anything else.
pub const ENVELOPE_DOMAIN: &'static str = "ce-mail-envelope-v1";

/// A message id: the SHA-256 hash of what the envelope's signature is over, in hex.
pub type MessageId = String;

/// The unsigned contents of an envelope.
#[derive(Debug, PartialEq, Eq)]
pub struct EnvelopeBody {
    /// The sender's node id in hex; the signer.
    pub from: String,
    /// The recipient's node id in hex.
    pub to: String,
    /// The subject, in clear.
    pub subject: String,
    /// The CID of the sealed body; empty if there is none.
    pub body_cid: String,
    /// The CIDs of the sealed attachments.
    pub attachment_cids: Vec<String>,
    /// The message this one replies to; empty if it starts a conversation.
    pub in_reply_to: String,
    /// When the sender stamped the message, in Unix seconds.
    pub sent_at: u64,
    /// A payment-channel receipt that proves postage; empty if there is none.
    pub postage_receipt: String,
}

/// A signed envelope: the contents and the sender's signature.
#[derive(Debug)]
pub struct Envelope {
    pub body: EnvelopeBody,
    pub sig: [u8; 64],
}

/// The contents of an envelope as mathematical values.
#[verifier::ext_equal]
pub struct BodyModel {
    pub from: Seq<char>,
    pub to: Seq<char>,
    pub subject: Seq<char>,
    pub body_cid: Seq<char>,
    pub attachment_cids: Seq<Seq<char>>,
    pub in_reply_to: Seq<char>,
    pub sent_at: u64,
    pub postage_receipt: Seq<char>,
}

/// A signed envelope as mathematical values.
#[verifier::ext_equal]
pub struct EnvelopeModel {
    pub body: BodyModel,
    pub sig: Seq<u8>,
}

impl View for EnvelopeBody {
    type V = BodyModel;

    open spec fn view(&self) -> BodyModel {
        BodyModel {
            from: self.from@,
            to: self.to@,
            subject: self.subject@,
            body_cid: self.body_cid@,
            attachment_cids: self.attachment_cids.deep_view(),
            in_reply_to: self.in_reply_to@,
            sent_at: self.sent_at,
            postage_receipt: self.postage_receipt@,
        }
    }
}

impl DeepView for EnvelopeBody {
    type V = BodyModel;

    open spec fn deep_view(&self) -> BodyModel {
        self.view()
    }
}

impl View for Envelope {
    type V = EnvelopeModel;

    open spec fn view(&self) -> EnvelopeModel {
        EnvelopeModel { body: self.body@, sig: self.sig@ }
    }
}

impl DeepView for Envelope {
    type V = EnvelopeModel;

    open spec fn deep_view(&self) -> EnvelopeModel {
        self.view()
    }
}

impl Clone for EnvelopeBody {
    fn clone(&self) -> (r: Self)
        ensures
            r@ == self@,
    {
        let attachment_cids = self.attachment_cids.clone();
        assert(attachment_cids.deep_view() =~= self.attachment_cids.deep_view());
        EnvelopeBody {
            from: self.from.clone(),
            to: self.to.clone(),
            subject: self.subject.clone(),
            body_cid: self.body_cid.clone(),
            attachment_cids,
            in_reply_to: self.in_reply_to.clone(),
            sent_at: self.sent_at,
            postage_receipt: self.postage_receipt.clone(),
        }
    }
}

impl Clone for Envelope {
    fn clone(&self) -> (r: Self)
        ensures
            r@ == self@,
    {
        Envelope { body: self.body.clone(), sig: self.sig }
    }
}

/// The fields of an envelope's contents in the order in which they are written.
pub type BodyFields = (
    String,
    (String, (String, (String, (Vec<String>, (String, (u64, String)))))),
);

/// The fields of `m` in the order in which they are written.
pub open spec fn body_fields(m: BodyModel) -> (
    Seq<char>,
    (Seq<char>, (Seq<char>, (Seq<char>, (Seq<Seq<char>>, (Seq<char>, (u64, Seq<char>)))))),
) {
    (
        m.from,
        (
            m.to,
            (
                m.subject,
                (m.body_cid, (m.attachment_cids, (m.in_reply_to, (m.sent_at, m.postage_receipt)))),
            ),
        ),
    )
}

/// The contents with the fields `t`.
pub open spec fn body_of_fields(
    t: (
        Seq<char>,
        (Seq<char>, (Seq<char>, (Seq<char>, (Seq<Seq<char>>, (Seq<char>, (u64, Seq<char>)))))),
    ),
) -> BodyModel {
    let (from, (to, (subject, (body_cid, (attachment_cids, (in_reply_to, (sent_at, postage))))))) =
        t;
    BodyModel {
        from,
        to,
        subject,
        body_cid,
        attachment_cids,
        in_reply_to,
        sent_at,
        postage_receipt: postage,
    }
}

impl Wire for EnvelopeBody {
    open spec fn fits(v: BodyModel) -> bool {
        BodyFields::fits(body_fields(v))
    }

    open spec fn wire(v: BodyModel) -> Seq<u8> {
        BodyFields::wire(body_fields(v))
    }

    open spec fn parse(b: Seq<u8>) -> Option<(BodyModel, Seq<u8>)> {
        match BodyFields::parse(b) {
            Some((t, rest)) => Some((body_of_fields(t), rest)),
            None => None,
        }
    }

    proof fn lemma_reads_back(v: BodyModel, rest: Seq<u8>) {
        BodyFields::lemma_reads_back(body_fields(v), rest);
    }

    proof fn lemma_wrote(b: Seq<u8>) {
        BodyFields::lemma_wrote(b);
    }

    fn put(&self, out: &mut Vec<u8>) {
        self.from.put(out);
        self.to.put(out);
        self.subject.put(out);
        self.body_cid.put(out);
        self.attachment_cids.put(out);
        self.in_reply_to.put(out);
        self.sent_at.put(out);
        self.postage_receipt.put(out);
        assert(out@ =~= old(out)@ + Self::wire(self@));
    }

    fn get(bytes: &[u8]) -> (r: Option<(EnvelopeBody, usize)>) {
        match BodyFields::get(bytes) {
            Some((t, used)) => {
                let (
                    from,
                    (
                        to,
                        (
                            subject,
                            (body_cid, (attachment_cids, (in_reply_to, (sent_at, postage_receipt)))),
                        ),
                    ),
                ) = t;
                Some(
                    (
                        EnvelopeBody {
                            from,
                            to,
                            subject,
                            body_cid,
                            attachment_cids,
                            in_reply_to,
                            sent_at,
                            postage_receipt,
                        },
                        used,
                    ),
                )
            },
            None => None,
        }
    }
}

impl Wire for Envelope {
    open spec fn fits(v: EnvelopeModel) -> bool {
        EnvelopeBody::fits(v.body) && v.sig.len() == 64
    }

    open spec fn wire(v: EnvelopeModel) -> Seq<u8> {
        <(EnvelopeBody, Vec<u8>)>::wire((v.body, v.sig))
    }

    open spec fn parse(b: Seq<u8>) -> Option<(EnvelopeModel, Seq<u8>)> {
        match <(EnvelopeBody, Vec<u8>)>::parse(b) {
            Some(((body, sig), rest)) => if sig.len() == 64 {
                Some((EnvelopeModel { body, sig }, rest))
            } else {
                None
            },
            None => None,
        }
    }

    proof fn lemma_reads_back(v: EnvelopeModel, rest: Seq<u8>) {
        <(EnvelopeBody, Vec<u8>)>::lemma_reads_back((v.body, v.sig), rest);
    }

    proof fn lemma_wrote(b: Seq<u8>) {
        <(EnvelopeBody, Vec<u8>)>::lemma_wrote(b);
    }

    fn put(&self, out: &mut Vec<u8>) {
        self.body.put(out);
        let sig: Vec<u8> = slice_to_vec(self.sig.as_slice());
        assert(sig.deep_view() =~= self.sig@);
        sig.put(out);
        assert(out@ =~= old(out)@ + Self::wire(self@));
    }

    fn get(bytes: &[u8]) -> (r: Option<(Envelope, usize)>) {
        match <(EnvelopeBody, Vec<u8>)>::get(bytes) {
            Some(((body, sig), used)) => {
                assert(sig.deep_view() =~= sig@);
                if sig.len() == 64 {
                    Some((Envelope { body, sig: array_of_64(sig.as_slice()) }, used))
                } else {
                    None
                }
            },
            None => None,
        }
    }
}

/// What the signature of an envelope with the contents `m` is over: the domain tag and the fields.
pub open spec fn signing_bytes(m: BodyModel) -> Seq<u8> {
    crate::wire::text_bytes(ENVELOPE_DOMAIN@) + EnvelopeBody::wire(m)
}

/// The id of a message with the contents `m`.
#[verifier::opaque]
pub open spec fn message_id_of(m: BodyModel) -> Seq<char> {
    crate::digest::hex_text(crate::digest::sha256(signing_bytes(m)))
}

/// What the signature of an envelope is over.
pub fn envelope_signing_bytes(e: &EnvelopeBody) -> (r: Vec<u8>)
    ensures
        r@ == signing_bytes(e@),
        EnvelopeBody::fits(e@),
{
    let mut out: Vec<u8> = Vec::new();
    write_text(&mut out, ENVELOPE_DOMAIN);
    e.put(&mut out);
    assert(out@ =~= signing_bytes(e@));
    out
}

/// The id of a message: the hash of what its envelope's signature is over, in hex.
pub fn message_id(e: &EnvelopeBody) -> (r: MessageId)
    ensures
        r@ == message_id_of(e@),
        r@.len() == 64,
{
    reveal(message_id_of);
    to_hex(sha256_of(envelope_signing_bytes(e).as_slice()).as_slice())
}

/// The node id that the text `s` gives, or what is wrong with it. White space around it is ignored.
pub open spec fn node_id_of(s: Seq<char>) -> Result<Seq<u8>, NodeIdError> {
    let digits = crate::text::trim(s);
    if !crate::digest::is_hex(digits) {
        Err(NodeIdError::NotHex)
    } else if digits.len() != 64 {
        Err(NodeIdError::WrongLength)
    } else {
        Ok(crate::digest::hex_bytes(digits))
    }
}

/// Reads a node id from 64 hex digits.
pub fn parse_node_id(hex_str: &str) -> (r: Result<NodeId, MailError>)
    ensures
        match node_id_of(hex_str@) {
            Ok(id) => r is Ok && r->Ok_0@ == id,
            Err(e) => r == Err::<NodeId, MailError>(MailError::NodeId(e)),
        },
{
    let digits = trimmed(hex_str);
    match from_hex(text_of(digits.as_slice()).as_str()) {
        Some(bytes) => if bytes.len() == 32 {
            Ok(array_of_32(bytes.as_slice()))
        } else {
            Err(MailError::NodeId(NodeIdError::WrongLength))
        },
        None => Err(MailError::NodeId(NodeIdError::NotHex)),
    }
}

/// Whether the signature check `check` can answer `ok` when asked about the key, the message and
/// the signature.
pub open spec fn check_says<F: Fn(&NodeId, &[u8], &[u8; 64]) -> bool>(
    check: F,
    key: Seq<u8>,
    message: Seq<u8>,
    sig: Seq<u8>,
    ok: bool,
) -> bool {
    exists|k: &NodeId, m: &[u8], s: &[u8; 64]|
        k@ == key && m@ == message && s@ == sig && #[trigger] call_ensures(check, (k, m, s), ok)
}

/// Whether the signature check `check` can be asked anything.
pub open spec fn can_check<F: Fn(&NodeId, &[u8], &[u8; 64]) -> bool>(check: F) -> bool {
    forall|k: &NodeId, m: &[u8], s: &[u8; 64]| #[trigger] call_requires(check, (k, m, s))
}

/// Whether the signer `sign` can give the signature `sig` over the message.
pub open spec fn sign_says<F: Fn(&[u8]) -> [u8; 64]>(
    sign: F,
    message: Seq<u8>,
    sig: Seq<u8>,
) -> bool {
    exists|m: &[u8], s: [u8; 64]|
        m@ == message && s@ == sig && #[trigger] call_ensures(sign, (m,), s)
}

/// Whether the signer `sign` can be given anything to sign.
pub open spec fn can_sign<F: Fn(&[u8]) -> [u8; 64]>(sign: F) -> bool {
    forall|m: &[u8]| #[trigger] call_requires(sign, (m,))
}

/// What verifying a signature over `message` by the signer named `signer` gives, when the check
/// answers `ok`.
pub open spec fn verdict(signer: Seq<char>, ok: bool) -> Result<(), SignatureError> {
    match node_id_of(signer) {
        Err(e) => Err(SignatureError::Signer(e)),
        Ok(_) => if ok {
            Ok(())
        } else {
            Err(SignatureError::Forged)
        },
    }
}

/// Whether `outcome` can be what `check` makes of a signature over `message` by the signer named
/// `signer`: the check is asked exactly when the name is a node id, and its answer decides.
pub open spec fn verified_as<F: Fn(&NodeId, &[u8], &[u8; 64]) -> bool>(
    check: F,
    signer: Seq<char>,
    message: Seq<u8>,
    sig: Seq<u8>,
    outcome: Result<(), SignatureError>,
) -> bool {
    match node_id_of(signer) {
        Err(e) => outcome == Err::<(), SignatureError>(SignatureError::Signer(e)),
        Ok(key) => exists|ok: bool| #[trigger]
            check_says(check, key, message, sig, ok) && outcome == verdict(signer, ok),
    }
}

/// Checks a signature over `message` by the signer named `signer`.
pub(crate) fn verify_signature<F: Fn(&NodeId, &[u8], &[u8; 64]) -> bool>(
    check: &F,
    signer: &str,
    message: &[u8],
    sig: &[u8; 64],
) -> (r: Result<(), SignatureError>)
    requires
        can_check(*check),
    ensures
        verified_as(*check, signer@, message@, sig@, r),
{
    match parse_node_id(signer) {
        Ok(key) => {
            let ok: bool = check(&key, message, sig);
            assert(check_says(*check, key@, message@, sig@, ok));
            if ok {
                Ok(())
            } else {
                Err(SignatureError::Forged)
            }
        },
        Err(MailError::NodeId(e)) => Err(SignatureError::Signer(e)),
        Err(_) => Err(SignatureError::Forged),
    }
}

/// `n`, or `usize::MAX` if it is larger than that.
pub open spec fn capped(n: nat) -> nat {
    if n <= usize::MAX {
        n
    } else {
        usize::MAX as nat
    }
}

/// The number of bytes that the text takes.
fn text_len(s: &str) -> (r: usize)
    ensures
        r == capped(crate::wire::text_bytes(s@).len()),
{
    proof {
        crate::wire::lemma_le64_len(vstd::utf8::encode_utf8(s@).len() as u64);
    }
    let n: usize = s.as_bytes().len();
    n.saturating_add(8)
}

/// The number of bytes that a list of texts takes.
fn texts_len(v: &Vec<String>) -> (r: usize)
    ensures
        r == capped(<Vec<String>>::wire(v.deep_view()).len()),
{
    let ghost all = v.deep_view();
    proof {
        crate::wire::lemma_le64_len(all.len() as u64);
        assert(all.skip(0) =~= all);
    }
    let mut n: usize = 8;
    let mut i: usize = 0;
    while i < v.len()
        invariant
            i <= v@.len(),
            all == v.deep_view(),
            capped(n as nat + crate::wire::items_bytes::<String>(all.skip(i as int)).len()) == capped(
                <Vec<String>>::wire(all).len(),
            ),
        decreases v@.len() - i,
    {
        assert(all.skip(i as int)[0] == v@[i as int]@);
        assert(all.skip(i as int).skip(1) =~= all.skip(i + 1));
        n = n.saturating_add(text_len(v[i].as_str()));
        i += 1;
    }
    assert(crate::wire::items_bytes::<String>(all.skip(v@.len() as int)).len() == 0);
    n
}

impl Envelope {
    /// Signs `body` as the node `sender`, whose signature `sign` gives. The sender's node id is put
    /// in `from`, whatever stood there, so that a signed envelope always names its signer.
    pub fn seal<F: Fn(&[u8]) -> [u8; 64]>(sender: &NodeId, sign: &F, body: EnvelopeBody) -> (r:
        Envelope)
        requires
            can_sign(*sign),
        ensures
            r@.body == (BodyModel { from: crate::digest::hex_text(sender@), ..body@ }),
            sign_says(*sign, signing_bytes(r@.body), r@.sig),
            EnvelopeBody::fits(r@.body),
    {
        let mut body = body;
        body.from = to_hex(sender.as_slice());
        let message = envelope_signing_bytes(&body);
        let sig: [u8; 64] = sign(message.as_slice());
        Envelope { body, sig }
    }

    /// Checks the sender's signature with `check`: an error if `from` is no node id, or if the
    /// signature is not the sender's over these contents.
    pub fn verify<F: Fn(&NodeId, &[u8], &[u8; 64]) -> bool>(&self, check: &F) -> (r: Result<
        (),
        MailError,
    >)
        requires
            can_check(*check),
        ensures
            exists|outcome: Result<(), SignatureError>| #[trigger]
                verified_as(
                    *check,
                    self@.body.from,
                    signing_bytes(self@.body),
                    self@.sig,
                    outcome,
                ) && r == (match outcome {
                    Ok(_) => Ok::<(), MailError>(()),
                    Err(e) => Err(MailError::Envelope(e)),
                }),
    {
        let message = envelope_signing_bytes(&self.body);
        let outcome = verify_signature(
            check,
            self.body.from.as_str(),
            message.as_slice(),
            &self.sig,
        );
        assert(verified_as(
            *check,
            self@.body.from,
            signing_bytes(self@.body),
            self@.sig,
            outcome,
        ));
        match outcome {
            Ok(_) => Ok(()),
            Err(e) => Err(MailError::Envelope(e)),
        }
    }

    /// The id of this message.
    pub fn message_id(&self) -> (r: MessageId)
        ensures
            r@ == message_id_of(self@.body),
            r@.len() == 64,
    {
        message_id(&self.body)
    }

    /// The number of attachments that the envelope names.
    pub fn attachment_count(&self) -> (r: usize)
        ensures
            r == self@.body.attachment_cids.len(),
    {
        self.body.attachment_cids.len()
    }

    /// The bytes of the envelope.
    pub fn encode(&self) -> (r: Vec<u8>)
        ensures
            r@ == Envelope::wire(self@),
            Envelope::fits(self@),
    {
        let mut out: Vec<u8> = Vec::new();
        self.put(&mut out);
        assert(out@ =~= Envelope::wire(self@));
        out
    }

    /// The bytes of the envelope; there is no envelope that has none.
    pub fn try_encode(&self) -> (r: Result<Vec<u8>, MailError>)
        ensures
            r is Ok,
            r->Ok_0@ == Envelope::wire(self@),
            Envelope::fits(self@),
    {
        Ok(self.encode())
    }

    /// The number of bytes that the envelope takes, found without writing them; `usize::MAX` if it
    /// is larger than that.
    pub fn encoded_len(&self) -> (r: usize)
        ensures
            r == capped(Envelope::wire(self@).len()),
    {
        let b = &self.body;
        let mut n: usize = text_len(b.from.as_str());
        n = n.saturating_add(text_len(b.to.as_str()));
        n = n.saturating_add(text_len(b.subject.as_str()));
        n = n.saturating_add(text_len(b.body_cid.as_str()));
        n = n.saturating_add(texts_len(&b.attachment_cids));
        n = n.saturating_add(text_len(b.in_reply_to.as_str()));
        n = n.saturating_add(8);
        n = n.saturating_add(text_len(b.postage_receipt.as_str()));
        proof {
            let m = self@.body;
            crate::wire::lemma_le64_len(m.sent_at);
            crate::wire::lemma_le64_len(64);
            crate::wire::lemma_bytes_of_bytes(self@.sig);
        }
        n.saturating_add(72)
    }

    /// Reads an envelope from its bytes, without checking its signature.
    pub fn decode(bytes: &[u8]) -> (r: Result<Envelope, MailError>)
        ensures
            match Envelope::parse(bytes@) {
                Some((e, _)) => r is Ok && r->Ok_0@ == e,
                None => r == Err::<Envelope, MailError>(MailError::Malformed(Format::Envelope)),
            },
    {
        match Envelope::get(bytes) {
            Some((e, _)) => Ok(e),
            None => Err(MailError::Malformed(Format::Envelope)),
        }
    }
}

/// A node id written in hex reads back as itself.
pub proof fn lemma_node_id_round_trip(id: Seq<u8>)
    requires
        id.len() == 32,
    ensures
        node_id_of(crate::digest::hex_text(id)) == Ok::<Seq<u8>, NodeIdError>(id),
{
    let s = crate::digest::hex_text(id);
    crate::digest::lemma_hex_round_trip(id);
    assert(crate::digest::is_hex_digit(s[0]));
    assert(crate::digest::is_hex_digit(s[63]));
    assert(crate::text::trim(s) == s);
}

/// What a signature is over determines the contents: two envelopes with the same signing bytes say
/// the same in every field.
pub proof fn lemma_signing_bytes_injective(a: BodyModel, b: BodyModel)
    requires
        EnvelopeBody::fits(a),
        EnvelopeBody::fits(b),
        signing_bytes(a) == signing_bytes(b),
    ensures
        a == b,
{
    let tag = crate::wire::text_bytes(ENVELOPE_DOMAIN@);
    let none = Seq::<u8>::empty();
    assert(signing_bytes(a).skip(tag.len() as int) =~= EnvelopeBody::wire(a) + none);
    assert(signing_bytes(b).skip(tag.len() as int) =~= EnvelopeBody::wire(b) + none);
    EnvelopeBody::lemma_reads_back(a, none);
    EnvelopeBody::lemma_reads_back(b, none);
}

/// An envelope reads back from its bytes as itself.
pub proof fn lemma_envelope_round_trip(e: EnvelopeModel)
    requires
        Envelope::fits(e),
    ensures
        Envelope::parse(Envelope::wire(e)) == Some((e, Seq::<u8>::empty())),
{
    let none = Seq::<u8>::empty();
    assert(Envelope::wire(e) + none =~= Envelope::wire(e));
    Envelope::lemma_reads_back(e, none);
}

/// Two envelopes with the same bytes are the same.
pub proof fn lemma_envelope_bytes_injective(a: EnvelopeModel, b: EnvelopeModel)
    requires
        Envelope::fits(a),
        Envelope::fits(b),
        Envelope::wire(a) == Envelope::wire(b),
    ensures
        a == b,
{
    lemma_envelope_round_trip(a);
    lemma_envelope_round_trip(b);
}

/// Whether `check` accepts, for `key`, whatever `sign` signs.
pub open spec fn accepts_signer<
    S: Fn(&[u8]) -> [u8; 64],
    C: Fn(&NodeId, &[u8], &[u8; 64]) -> bool,
>(sign: S, check: C, key: Seq<u8>) -> bool {
    forall|message: Seq<u8>, sig: Seq<u8>, ok: bool| #[trigger]
        sign_says(sign, message, sig) && #[trigger] check_says(check, key, message, sig, ok) ==> ok
}

/// An envelope that was sealed verifies, wherever the check accepts what the signer signs.
pub proof fn lemma_sealed_verifies<
    S: Fn(&[u8]) -> [u8; 64],
    C: Fn(&NodeId, &[u8], &[u8; 64]) -> bool,
>(
    sign: S,
    check: C,
    sender: Seq<u8>,
    e: EnvelopeModel,
    outcome: Result<(), SignatureError>,
)
    requires
        sender.len() == 32,
        accepts_signer(sign, check, sender),
        e.body.from == crate::digest::hex_text(sender),
        sign_says(sign, signing_bytes(e.body), e.sig),
        verified_as(check, e.body.from, signing_bytes(e.body), e.sig, outcome),
    ensures
        outcome == Ok::<(), SignatureError>(()),
{
    lemma_node_id_round_trip(sender);
}

/// Whether `check` accepts the signature `sig` over no message but `message`, whatever the key.
pub open spec fn signs_only<C: Fn(&NodeId, &[u8], &[u8; 64]) -> bool>(
    check: C,
    sig: Seq<u8>,
    message: Seq<u8>,
) -> bool {
    forall|key: Seq<u8>, other: Seq<u8>| #[trigger]
        check_says(check, key, other, sig, true) ==> other == message
}

/// An envelope that was tampered with is refused: where the check accepts a signature over the
/// envelope that it was made for alone, the same signature on any other contents is refused,
/// whichever field was changed, the sender among them.
pub proof fn lemma_tampered_is_refused<C: Fn(&NodeId, &[u8], &[u8; 64]) -> bool>(
    check: C,
    e: EnvelopeModel,
    changed: BodyModel,
    outcome: Result<(), SignatureError>,
)
    requires
        EnvelopeBody::fits(e.body),
        EnvelopeBody::fits(changed),
        signs_only(check, e.sig, signing_bytes(e.body)),
        changed != e.body,
        verified_as(check, changed.from, signing_bytes(changed), e.sig, outcome),
    ensures
        match node_id_of(changed.from) {
            Ok(_) => outcome == Err::<(), SignatureError>(SignatureError::Forged),
            Err(x) => outcome == Err::<(), SignatureError>(SignatureError::Signer(x)),
        },
{
    if signing_bytes(changed) == signing_bytes(e.body) {
        lemma_signing_bytes_injective(changed, e.body);
    }
}

/// A text with a character that is neither a hex digit nor white space is no node id.
pub proof fn lemma_node_id_holds_no(s: Seq<char>, c: char)
    requires
        node_id_of(s) is Ok,
        !crate::digest::is_hex_digit(c),
        !crate::text::white_space(c),
    ensures
        !s.contains(c),
{
    if s.contains(c) {
        crate::text::lemma_trim_keeps(s, c);
        let digits = crate::text::trim(s);
        let i = choose|i: int| 0 <= i < digits.len() && digits[i] == c;
        assert(crate::digest::is_hex_digit(digits[i]));
    }
}

} // verus!
