//! The mail client: what is sent, and what is made of what comes back.
//!
//! Sending and reading take turns with the network: blobs are stored and fetched, requests are sent
//! and answered. Here stands what is decided between these turns. A message on its way is an
//! [`Outgoing`], which says what to do next and takes up what came of it.

use crate::attachment::{Attachment, AttachmentModel};
use crate::crypto::{decode_sealed, encode_sealed, open, seal};
use crate::digest::{to_hex, NodeId};
use crate::envelope::{parse_node_id, BodyModel, Envelope, EnvelopeBody, EnvelopeModel};
use crate::error::{Asked, MailError, Measured, SignatureError};
use crate::limits::Limits;
use crate::proto::{Grant, MailReply, MailRequest};
use crate::receipt::{Receipt, ReceiptKind, ReceiptModel};
use crate::screening::{Amount, PolicyModel, ScreeningPolicy, SenderStanding, Verdict};
use crate::wire::Wire;
use vstd::prelude::*;
use vstd::slice::slice_subrange;

verus! {

/// How long a request may take unless another time is given, in milliseconds.
pub const DEFAULT_TIMEOUT_MS: u64 = 30000;

/// The first byte of a plaintext that holds a subject beside the body.
pub const BODY_CONTENT_MAGIC: u8 = 0xC5;

/// What stands in place of a subject that is sealed.
pub const REDACTED_SUBJECT: &'static str = "(encrypted subject)";

/// The plaintext of a body whose subject is sealed too.
#[derive(Debug, Clone, PartialEq, Eq)]
pub struct BodyContent {
    /// The subject.
    pub subject: String,
    /// The body.
    pub body: Vec<u8>,
}

/// The bytes of a plaintext that holds a subject beside the body.
pub open spec fn content_bytes(subject: Seq<char>, body: Seq<u8>) -> Seq<u8> {
    seq![BODY_CONTENT_MAGIC] + <(String, Vec<u8>)>::wire((subject, body))
}

/// The subject and the body that a plaintext holds, if it is of the kind that holds both.
pub open spec fn parse_content(plaintext: Seq<u8>) -> Option<(Seq<char>, Seq<u8>)> {
    if plaintext.len() > 0 && plaintext[0] == BODY_CONTENT_MAGIC {
        match <(String, Vec<u8>)>::parse(plaintext.skip(1)) {
            Some((content, _)) => Some(content),
            None => None,
        }
    } else {
        None
    }
}

impl BodyContent {
    /// The plaintext that holds the subject and the body; there is always one.
    pub fn encode(&self) -> (r: Result<Vec<u8>, MailError>)
        ensures
            r is Ok,
            r->Ok_0@ == content_bytes(self.subject@, self.body@),
            <(String, Vec<u8>)>::fits((self.subject@, self.body@)),
    {
        let mut out: Vec<u8> = Vec::new();
        out.push(BODY_CONTENT_MAGIC);
        self.subject.put(&mut out);
        self.body.put(&mut out);
        assert(self.body.deep_view() =~= self.body@);
        assert(out@ =~= content_bytes(self.subject@, self.body@));
        Ok(out)
    }

    /// The subject and the body that a plaintext holds; `None` if it is a body alone.
    pub fn try_decode(plaintext: &[u8]) -> (r: Option<BodyContent>)
        ensures
            match parse_content(plaintext@) {
                Some((subject, body)) => r is Some && r->0.subject@ == subject && r->0.body@
                    == body,
                None => r is None,
            },
    {
        if plaintext.len() == 0 || plaintext[0] != BODY_CONTENT_MAGIC {
            return None;
        }
        let rest = slice_subrange(plaintext, 1, plaintext.len());
        assert(rest@ =~= plaintext@.skip(1));
        match <(String, Vec<u8>)>::get(rest) {
            Some(((subject, body), _)) => {
                assert(body.deep_view() =~= body@);
                Some(BodyContent { subject, body })
            },
            None => None,
        }
    }
}

/// A message that was received and opened.
#[derive(Debug, Clone)]
pub struct Message {
    /// The verified envelope.
    pub envelope: Envelope,
    /// The body; empty if there is none.
    pub body: Vec<u8>,
    /// The subject that was sealed, if one was.
    pub sealed_subject: Option<String>,
}

/// A message as mathematical values.
#[verifier::ext_equal]
pub struct MessageModel {
    pub envelope: EnvelopeModel,
    pub body: Seq<u8>,
    pub sealed_subject: Option<Seq<char>>,
}

/// A text, if any, by its view.
pub open spec fn text_view(s: Option<String>) -> Option<Seq<char>> {
    match s {
        Some(t) => Some(t@),
        None => None,
    }
}

impl View for Message {
    type V = MessageModel;

    open spec fn view(&self) -> MessageModel {
        MessageModel {
            envelope: self.envelope@,
            body: self.body@,
            sealed_subject: text_view(self.sealed_subject),
        }
    }
}

impl DeepView for Message {
    type V = MessageModel;

    open spec fn deep_view(&self) -> MessageModel {
        self.view()
    }
}

/// The text that `String::from_utf8_lossy` makes of the bytes.
pub uninterp spec fn lossy_text(bytes: Seq<u8>) -> Seq<char>;

/// Reads bytes as text with `String::from_utf8_lossy`. The result is named `lossy_text`; valid
/// UTF-8 is read as what it encodes.
#[verifier::external_body]
fn read_lossily(bytes: &[u8]) -> (r: String)
    ensures
        r@ == lossy_text(bytes@),
        vstd::utf8::valid_utf8(bytes@) ==> r@ == vstd::utf8::decode_utf8(bytes@),
{
    String::from_utf8_lossy(bytes).into_owned()
}

impl Message {
    /// The subject: the one that was sealed, or else the one in clear.
    pub fn subject(&self) -> (r: String)
        ensures
            r@ == (match self@.sealed_subject {
                Some(s) => s,
                None => self@.envelope.body.subject,
            }),
    {
        match &self.sealed_subject {
            Some(s) => s.clone(),
            None => self.envelope.body.subject.clone(),
        }
    }

    /// The id of the message.
    pub fn id(&self) -> (r: String)
        ensures
            r@ == crate::envelope::message_id_of(self@.envelope.body),
            r@.len() == 64,
    {
        self.envelope.message_id()
    }

    /// The body as text; bytes that are no UTF-8 are replaced.
    pub fn body_text(&self) -> (r: String)
        ensures
            r@ == lossy_text(self@.body),
            vstd::utf8::valid_utf8(self@.body) ==> r@ == vstd::utf8::decode_utf8(self@.body),
    {
        read_lossily(self.body.as_slice())
    }
}

/// What is to be sent, and how.
#[derive(Debug, Clone)]
pub struct SendOptions {
    /// The recipient's node id in hex.
    pub to: String,
    /// The subject.
    pub subject: String,
    /// The body.
    pub body: Vec<u8>,
    /// The attachments.
    pub attachments: Vec<Attachment>,
    /// The message that is replied to; empty if none is.
    pub in_reply_to: String,
    /// Whether the subject is sealed with the body, and only a placeholder stands in clear.
    pub seal_subject: bool,
    /// A postage receipt; empty if there is none.
    pub postage_receipt: String,
    /// The mailbox to deliver to; the recipient itself if there is none.
    pub mailbox: Option<String>,
    /// The capability chain to show to the mailbox.
    pub grant: Grant,
}

/// What is to be sent, as mathematical values.
#[verifier::ext_equal]
pub struct OptionsModel {
    pub to: Seq<char>,
    pub subject: Seq<char>,
    pub body: Seq<u8>,
    pub attachments: Seq<AttachmentModel>,
    pub in_reply_to: Seq<char>,
    pub seal_subject: bool,
    pub postage_receipt: Seq<char>,
    pub mailbox: Option<Seq<char>>,
    pub grant: Seq<u8>,
}

impl View for SendOptions {
    type V = OptionsModel;

    open spec fn view(&self) -> OptionsModel {
        OptionsModel {
            to: self.to@,
            subject: self.subject@,
            body: self.body@,
            attachments: self.attachments.deep_view(),
            in_reply_to: self.in_reply_to@,
            seal_subject: self.seal_subject,
            postage_receipt: self.postage_receipt@,
            mailbox: text_view(self.mailbox),
            grant: self.grant@,
        }
    }
}

impl Default for SendOptions {
    fn default() -> (r: Self)
        ensures
            r@ == (OptionsModel {
                to: Seq::empty(),
                subject: Seq::empty(),
                body: Seq::empty(),
                attachments: Seq::empty(),
                in_reply_to: Seq::empty(),
                seal_subject: false,
                postage_receipt: Seq::empty(),
                mailbox: None,
                grant: crate::wire::le64(0),
            }),
    {
        let attachments: Vec<Attachment> = Vec::new();
        assert(attachments.deep_view() =~= Seq::<AttachmentModel>::empty());
        SendOptions {
            to: String::new(),
            subject: String::new(),
            body: Vec::new(),
            attachments,
            in_reply_to: String::new(),
            seal_subject: false,
            postage_receipt: String::new(),
            mailbox: None,
            grant: Grant::none(),
        }
    }
}

impl OptionsModel {
    /// Whether there is a body to store: one that is not empty, or a subject to seal with it.
    pub open spec fn has_body_blob(self) -> bool {
        self.seal_subject || self.body.len() > 0
    }

    /// The plaintext of the body blob.
    pub open spec fn body_plaintext(self) -> Seq<u8> {
        if self.seal_subject {
            content_bytes(self.subject, self.body)
        } else {
            self.body
        }
    }

    /// The plaintexts of all blobs, in the order in which they are stored: the body, if there is
    /// one to store, and the attachments.
    pub open spec fn plaintexts(self) -> Seq<Seq<u8>> {
        let attached = Seq::new(
            self.attachments.len(),
            |i: int| Attachment::wire(self.attachments[i]),
        );
        if self.has_body_blob() {
            seq![self.body_plaintext()] + attached
        } else {
            attached
        }
    }

    /// The envelope's contents, once the blobs are stored under `cids`.
    pub open spec fn contents(self, from: Seq<char>, cids: Seq<Seq<char>>, now: u64) -> BodyModel {
        BodyModel {
            from,
            to: self.to,
            subject: if self.seal_subject {
                REDACTED_SUBJECT@
            } else {
                self.subject
            },
            body_cid: if self.has_body_blob() {
                cids[0]
            } else {
                Seq::empty()
            },
            attachment_cids: if self.has_body_blob() {
                cids.skip(1)
            } else {
                cids
            },
            in_reply_to: self.in_reply_to,
            sent_at: now,
            postage_receipt: self.postage_receipt,
        }
    }

    /// The node that the envelope is sent to.
    pub open spec fn target(self) -> Seq<char> {
        match self.mailbox {
            Some(mailbox) => mailbox,
            None => self.to,
        }
    }

    /// The grant that is shown: the given one to a mailbox, none to the recipient.
    pub open spec fn shown_grant(self) -> Seq<u8> {
        match self.mailbox {
            Some(mailbox) => self.grant,
            None => crate::wire::le64(0),
        }
    }
}

/// The first attachment from position `from` on that is larger than `limit`, if there is one.
pub open spec fn first_large(
    attachments: Seq<AttachmentModel>,
    from: int,
    limit: usize,
) -> Option<int>
    decreases attachments.len() - from,
{
    if 0 <= from < attachments.len() {
        if attachments[from].bytes.len() > limit {
            Some(from)
        } else {
            first_large(attachments, from + 1, limit)
        }
    } else {
        None
    }
}

/// Whether `e` is the complaint that the attachment is larger than `limit`.
pub open spec fn is_too_large(e: MailError, a: AttachmentModel, limit: usize) -> bool {
    e matches MailError::AttachmentTooLarge { filename, size, limit: l } && filename@ == a.filename
        && size == a.bytes.len() && l == limit
}

/// Whether `bytes` is a blob in which `plaintext` is sealed to `recipient`: what sealing gives for
/// some ephemeral key and nonce, which the recipient's secret opens.
pub open spec fn is_sealed_blob(bytes: Seq<u8>, recipient: Seq<u8>, plaintext: Seq<u8>) -> bool {
    exists|s: crate::crypto::SealedModel| #[trigger]
        crate::crypto::SealedBody::fits(s) && bytes == crate::crypto::SealedBody::wire(s)
            && is_sealing(s, recipient, plaintext)
}

/// Whether `s` is what sealing `plaintext` to `recipient` gives, and opens with the recipient's
/// secret.
pub open spec fn is_sealing(
    s: crate::crypto::SealedModel,
    recipient: Seq<u8>,
    plaintext: Seq<u8>,
) -> bool {
    &&& exists|seed: Seq<u8>, nonce: Seq<u8>|
        seed.len() == 32 && nonce.len() == 12 && #[trigger] crate::crypto::sealed_as(
            recipient,
            seed,
            nonce,
            plaintext,
        ) == Ok::<crate::crypto::SealedModel, MailError>(s)
    &&& forall|ed_secret: Seq<u8>| #[trigger]
        crate::crypto::is_key_pair(recipient, ed_secret) ==> crate::crypto::opened_as(
            ed_secret,
            s,
        ) == Ok::<Seq<u8>, MailError>(plaintext)
}

/// Why `plaintext` cannot be sealed to `recipient`, if it cannot.
pub open spec fn sealing_error(recipient: Seq<u8>, plaintext: Seq<u8>) -> Option<MailError> {
    if crate::crypto::montgomery_form(recipient) is None {
        Some(MailError::NotAKey)
    } else if !crate::crypto::sealable(plaintext.len()) {
        Some(MailError::SealFailed)
    } else {
        None
    }
}

/// Seals `plaintext` to `recipient` and gives the bytes to store.
fn seal_blob(recipient: &NodeId, plaintext: &[u8]) -> (r: Result<Vec<u8>, MailError>)
    ensures
        match sealing_error(recipient@, plaintext@) {
            Some(e) => r == Err::<Vec<u8>, MailError>(e),
            None => r is Ok && is_sealed_blob(r->Ok_0@, recipient@, plaintext@),
        },
{
    match seal(recipient, plaintext) {
        Ok(sealed) => {
            let bytes = encode_sealed(&sealed);
            assert(is_sealing(sealed@, recipient@, plaintext@));
            Ok(bytes)
        },
        Err(e) => Err(e),
    }
}

/// A message on its way: what is to be sent, and the CIDs of the blobs that are stored already.
#[derive(Debug)]
pub struct Outgoing {
    recipient: NodeId,
    options: SendOptions,
    stored: Vec<String>,
}

/// A message on its way as mathematical values.
#[verifier::ext_equal]
pub struct OutgoingModel {
    pub recipient: Seq<u8>,
    pub options: OptionsModel,
    pub stored: Seq<Seq<char>>,
}

impl View for Outgoing {
    type V = OutgoingModel;

    closed spec fn view(&self) -> OutgoingModel {
        OutgoingModel {
            recipient: self.recipient@,
            options: self.options@,
            stored: self.stored.deep_view(),
        }
    }
}

/// What a message on its way needs next.
#[derive(Debug)]
pub enum SendAction {
    /// Store these bytes as a blob and report its CID with [`Outgoing::blob_stored`].
    StoreBlob { bytes: Vec<u8> },
    /// Send this request to the node `to` and hand its reply to [`MailClient::delivered`].
    Deliver { message_id: String, to: String, request: MailRequest },
}

/// Whether the action is to deliver an envelope with these contents, signed by `sign`, as the
/// options say.
pub open spec fn delivers<S: Fn(&[u8]) -> [u8; 64]>(
    sign: S,
    action: SendAction,
    o: OptionsModel,
    contents: BodyModel,
) -> bool {
    match action {
        SendAction::Deliver {
            message_id,
            to,
            request: MailRequest::Deliver { envelope, grant },
        } => {
            &&& envelope@.body == contents
            &&& message_id@ == crate::envelope::message_id_of(contents)
            &&& crate::envelope::sign_says(
                sign,
                crate::envelope::signing_bytes(contents),
                envelope@.sig,
            )
            &&& to@ == o.target()
            &&& grant@ == o.shown_grant()
        },
        _ => false,
    }
}

impl Outgoing {
    /// Takes up that the blob was stored under `cid`.
    pub fn blob_stored(&mut self, cid: String)
        ensures
            final(self)@ == (OutgoingModel { stored: old(self)@.stored.push(cid@), ..old(self)@ }),
    {
        let ghost before = self@;
        self.stored.push(cid);
        assert(self.stored.deep_view() =~= before.stored.push(cid@));
    }
}

/// The keys of the node that the client acts for.
pub struct Keys {
    /// The node id.
    pub node_id: NodeId,
    /// The Ed25519 secret.
    pub secret: [u8; 32],
}

/// A mail client of one node.
pub struct MailClient {
    keys: Keys,
    timeout_ms: u64,
    limits: Limits,
}

/// A mail client as mathematical values.
#[verifier::ext_equal]
pub struct ClientModel {
    pub node_id: Seq<u8>,
    pub secret: Seq<u8>,
    pub timeout_ms: u64,
    pub limits: Limits,
}

impl View for MailClient {
    type V = ClientModel;

    closed spec fn view(&self) -> ClientModel {
        ClientModel {
            node_id: self.keys.node_id@,
            secret: self.keys.secret@,
            timeout_ms: self.timeout_ms,
            limits: self.limits,
        }
    }
}

/// Those of `items` for which `keep` holds, in their order.
pub open spec fn kept<T>(items: Seq<T>, keep: Seq<bool>) -> Seq<T>
    decreases items.len(),
{
    if items.len() == 0 {
        items
    } else if keep[items.len() - 1] {
        kept(items.drop_last(), keep).push(items.last())
    } else {
        kept(items.drop_last(), keep)
    }
}

proof fn lemma_kept_ignores_rest<T>(items: Seq<T>, a: Seq<bool>, b: Seq<bool>)
    requires
        forall|i: int| 0 <= i < items.len() ==> a[i] == b[i],
    ensures
        kept(items, a) == kept(items, b),
    decreases items.len(),
{
    if items.len() > 0 {
        lemma_kept_ignores_rest(items.drop_last(), a, b);
    }
}

/// Whether `check` can find the signature of the envelope to hold, or not to.
pub open spec fn envelope_holds<F: Fn(&NodeId, &[u8], &[u8; 64]) -> bool>(
    check: F,
    e: EnvelopeModel,
    ok: bool,
) -> bool {
    exists|outcome: Result<(), SignatureError>| #[trigger]
        crate::envelope::verified_as(
            check,
            e.body.from,
            crate::envelope::signing_bytes(e.body),
            e.sig,
            outcome,
        ) && ok == (outcome is Ok)
}

/// Whether `check` can find the signature of the receipt to hold, or not to.
pub open spec fn receipt_holds<F: Fn(&NodeId, &[u8], &[u8; 64]) -> bool>(
    check: F,
    r: ReceiptModel,
    ok: bool,
) -> bool {
    exists|outcome: Result<(), SignatureError>| #[trigger]
        crate::envelope::verified_as(
            check,
            r.body.by,
            crate::receipt::receipt_message(r.body),
            r.sig,
            outcome,
        ) && ok == (outcome is Ok)
}

/// The body, and the subject if one was sealed, in a blob that is opened with `secret`.
pub open spec fn content_of(secret: Seq<u8>, blob: Seq<u8>) -> Result<
    (Seq<u8>, Option<Seq<char>>),
    MailError,
> {
    match crate::crypto::SealedBody::parse(blob) {
        None => Err(MailError::Malformed(crate::error::Format::SealedBody)),
        Some((sealed, _)) => match crate::crypto::opened_as(secret, sealed) {
            Err(e) => Err(e),
            Ok(plaintext) => match parse_content(plaintext) {
                Some((subject, body)) => Ok((body, Some(subject))),
                None => Ok((plaintext, None)),
            },
        },
    }
}

/// The body and the sealed subject of an envelope whose body blob is given.
pub open spec fn opened(secret: Seq<u8>, e: EnvelopeModel, blob: Seq<u8>) -> Result<
    (Seq<u8>, Option<Seq<char>>),
    MailError,
> {
    if e.body.body_cid.len() == 0 {
        Ok((Seq::empty(), None))
    } else {
        content_of(secret, blob)
    }
}

/// The message made of an envelope and of its body blob, if it could be fetched. What cannot be
/// fetched or opened is an empty body.
pub open spec fn composed(secret: Seq<u8>, e: EnvelopeModel, blob: Option<Seq<u8>>) -> MessageModel {
    let nothing = MessageModel { envelope: e, body: Seq::empty(), sealed_subject: None };
    match blob {
        None => nothing,
        Some(b) => match opened(secret, e, b) {
            Ok((body, sealed_subject)) => MessageModel { envelope: e, body, sealed_subject },
            Err(_) => nothing,
        },
    }
}

/// The bytes, if any, by their view.
pub open spec fn blob_view(b: Option<Vec<u8>>) -> Option<Seq<u8>> {
    match b {
        Some(bytes) => Some(bytes@),
        None => None,
    }
}

impl MailClient {
    /// A client of the node with these keys, with the default timeout and limits.
    pub fn new(keys: Keys) -> (r: MailClient)
        ensures
            r@ == (ClientModel {
                node_id: keys.node_id@,
                secret: keys.secret@,
                timeout_ms: DEFAULT_TIMEOUT_MS,
                limits: crate::limits::default_limits(),
            }),
    {
        MailClient { keys, timeout_ms: DEFAULT_TIMEOUT_MS, limits: Limits::default() }
    }

    /// The client with another timeout.
    pub fn with_timeout(self, timeout_ms: u64) -> (r: MailClient)
        ensures
            r@ == (ClientModel { timeout_ms, ..self@ }),
    {
        let mut client = self;
        client.timeout_ms = timeout_ms;
        client
    }

    /// The client with other limits.
    pub fn with_limits(self, limits: Limits) -> (r: MailClient)
        ensures
            r@ == (ClientModel { limits, ..self@ }),
    {
        let mut client = self;
        client.limits = limits;
        client
    }

    /// How long a request may take, in milliseconds.
    pub fn timeout_ms(&self) -> (r: u64)
        ensures
            r == self@.timeout_ms,
    {
        self.timeout_ms
    }

    /// The node id of the client in hex.
    pub fn node_id_hex(&self) -> (r: String)
        ensures
            r@ == crate::digest::hex_text(self@.node_id),
    {
        to_hex(self.keys.node_id.as_slice())
    }

    /// Starts to send a message: an error if the recipient is no node id, or if the body or the
    /// attachments are too large or too many.
    pub fn send(&self, options: SendOptions) -> (r: Result<Outgoing, MailError>)
        ensures
            match crate::envelope::node_id_of(options@.to) {
                Err(e) => r == Err::<Outgoing, MailError>(MailError::NodeId(e)),
                Ok(recipient) => if options@.body.len() > self@.limits.max_body_bytes {
                    r == Err::<Outgoing, MailError>(
                        MailError::TooLarge {
                            what: Measured::Body,
                            size: options@.body.len() as usize,
                            limit: self@.limits.max_body_bytes,
                        },
                    )
                } else if options@.attachments.len() > self@.limits.max_attachments {
                    r == Err::<Outgoing, MailError>(
                        MailError::TooManyAttachments {
                            count: options@.attachments.len() as usize,
                            limit: self@.limits.max_attachments,
                        },
                    )
                } else {
                    match first_large(
                        options@.attachments,
                        0,
                        self@.limits.max_attachment_bytes,
                    ) {
                        Some(i) => r is Err && is_too_large(
                            r->Err_0,
                            options@.attachments[i],
                            self@.limits.max_attachment_bytes,
                        ),
                        None => r is Ok && r->Ok_0@ == (OutgoingModel {
                            recipient,
                            options: options@,
                            stored: Seq::empty(),
                        }),
                    }
                },
            },
    {
        let recipient = match parse_node_id(options.to.as_str()) {
            Ok(id) => id,
            Err(e) => return Err(e),
        };
        let size: usize = options.body.len();
        if size > self.limits.max_body_bytes {
            return Err(
                MailError::TooLarge {
                    what: Measured::Body,
                    size,
                    limit: self.limits.max_body_bytes,
                },
            );
        }
        let count: usize = options.attachments.len();
        if count > self.limits.max_attachments {
            return Err(
                MailError::TooManyAttachments { count, limit: self.limits.max_attachments },
            );
        }
        let limit: usize = self.limits.max_attachment_bytes;
        let mut i: usize = 0;
        while i < count
            invariant
                i <= count,
                count == options.attachments@.len(),
                limit == self@.limits.max_attachment_bytes,
                first_large(options@.attachments, i as int, limit) == first_large(
                    options@.attachments,
                    0,
                    limit,
                ),
                crate::envelope::node_id_of(options@.to) is Ok,
                options@.body.len() <= self@.limits.max_body_bytes,
                options@.attachments.len() <= self@.limits.max_attachments,
            decreases count - i,
        {
            let a = &options.attachments[i];
            assert(options@.attachments[i as int] == a@);
            let size: usize = a.bytes.len();
            if size > limit {
                return Err(
                    MailError::AttachmentTooLarge { filename: a.filename.clone(), size, limit },
                );
            }
            i += 1;
        }
        let stored: Vec<String> = Vec::new();
        assert(stored.deep_view() =~= Seq::<Seq<char>>::empty());
        Ok(Outgoing { recipient, options, stored })
    }

    /// What a message on its way needs next. As long as not all of its blobs are stored, that is to
    /// store the next one, sealed to the recipient. Then it is to deliver the envelope that names
    /// them, signed by `sign` and stamped with the time `now`.
    pub fn next_action<S: Fn(&[u8]) -> [u8; 64]>(
        &self,
        outgoing: &Outgoing,
        now: u64,
        sign: &S,
    ) -> (r: Result<SendAction, MailError>)
        requires
            crate::envelope::can_sign(*sign),
        ensures
            ({
                let o = outgoing@.options;
                let done = outgoing@.stored;
                if done.len() < o.plaintexts().len() {
                    let plaintext = o.plaintexts()[done.len() as int];
                    match sealing_error(outgoing@.recipient, plaintext) {
                        Some(e) => r == Err::<SendAction, MailError>(e),
                        None => r matches Ok(SendAction::StoreBlob { bytes }) && is_sealed_blob(
                            bytes@,
                            outgoing@.recipient,
                            plaintext,
                        ),
                    }
                } else {
                    r is Ok && delivers(
                        *sign,
                        r->Ok_0,
                        o,
                        o.contents(crate::digest::hex_text(self@.node_id), done, now),
                    )
                }
            }),
    {
        let o = &outgoing.options;
        let done: usize = outgoing.stored.len();
        let ghost plain = outgoing@.options.plaintexts();
        let has_body: bool = o.seal_subject || o.body.len() > 0;
        if has_body && done == 0 {
            if o.seal_subject {
                let content = BodyContent { subject: o.subject.clone(), body: o.body.clone() };
                assert(content.body@ =~= o.body@);
                let plaintext = match content.encode() {
                    Ok(bytes) => bytes,
                    Err(e) => return Err(e),
                };
                assert(plain[0] == plaintext@);
                return match seal_blob(&outgoing.recipient, plaintext.as_slice()) {
                    Ok(bytes) => Ok(SendAction::StoreBlob { bytes }),
                    Err(e) => Err(e),
                };
            }
            assert(plain[0] == o.body@);
            return match seal_blob(&outgoing.recipient, o.body.as_slice()) {
                Ok(bytes) => Ok(SendAction::StoreBlob { bytes }),
                Err(e) => Err(e),
            };
        }
        let offset: usize = if has_body {
            1
        } else {
            0
        };
        assert(plain.len() == offset + o.attachments@.len());
        if done - offset < o.attachments.len() {
            let a = &o.attachments[done - offset];
            assert(o@.attachments[done - offset] == a@);
            assert(plain[done as int] == Attachment::wire(a@));
            let plaintext = match a.encode() {
                Ok(bytes) => bytes,
                Err(e) => return Err(e),
            };
            return match seal_blob(&outgoing.recipient, plaintext.as_slice()) {
                Ok(bytes) => Ok(SendAction::StoreBlob { bytes }),
                Err(e) => Err(e),
            };
        }
        let cids = outgoing.stored.clone();
        assert(cids.deep_view() =~= outgoing.stored.deep_view());
        let mut cids = cids;
        let attachment_cids = cids.split_off(offset);
        assert(attachment_cids.deep_view() =~= outgoing@.stored.skip(offset as int));
        assert(outgoing@.stored.skip(0) =~= outgoing@.stored);
        let body_cid: String = if has_body {
            cids[0].clone()
        } else {
            String::new()
        };
        let subject: String = if o.seal_subject {
            REDACTED_SUBJECT.to_owned()
        } else {
            o.subject.clone()
        };
        let body = EnvelopeBody {
            from: String::new(),
            to: o.to.clone(),
            subject,
            body_cid,
            attachment_cids,
            in_reply_to: o.in_reply_to.clone(),
            sent_at: now,
            postage_receipt: o.postage_receipt.clone(),
        };
        let envelope = Envelope::seal(&self.keys.node_id, sign, body);
        let message_id = envelope.message_id();
        let (to, grant): (String, Grant) = match &o.mailbox {
            Some(mailbox) => (mailbox.clone(), o.grant.clone()),
            None => (o.to.clone(), Grant::none()),
        };
        let request = MailRequest::Deliver { envelope, grant };
        Ok(SendAction::Deliver { message_id, to, request })
    }

    /// What became of a delivery: the id of the message if it was accepted.
    pub fn delivered(&self, message_id: String, reply: MailReply) -> (r: Result<String, MailError>)
        ensures
            match reply@ {
                crate::proto::ReplyModel::Delivered { duplicate } => r is Ok && r->Ok_0@
                    == message_id@,
                crate::proto::ReplyModel::Error { message } => r matches Err(
                    MailError::Rejected { asked, message: m },
                ) && asked == Asked::Deliver && m@ == message,
                _ => r == Err::<String, MailError>(MailError::UnexpectedReply(Asked::Deliver)),
            },
    {
        match reply {
            MailReply::Delivered { .. } => Ok(message_id),
            MailReply::Error { message } => Err(
                MailError::Rejected { asked: Asked::Deliver, message },
            ),
            _ => Err(MailError::UnexpectedReply(Asked::Deliver)),
        }
    }

    /// The request that reads the client's inbox from the cursor `since` on.
    pub fn drain_request(&self, since: usize, grant: Grant) -> (r: MailRequest)
        ensures
            r@ == (crate::proto::RequestModel::Drain {
                recipient: crate::digest::hex_text(self@.node_id),
                since,
                grant: grant@,
            }),
    {
        MailRequest::Drain { recipient: self.node_id_hex(), since, grant }
    }

    /// What became of reading the inbox: the envelopes and the cursor after them.
    pub fn drained(&self, reply: MailReply) -> (r: Result<(Vec<Envelope>, usize), MailError>)
        ensures
            match reply@ {
                crate::proto::ReplyModel::Drained { envelopes, cursor } => r matches Ok((es, c))
                    && es.deep_view() == envelopes && c == cursor,
                crate::proto::ReplyModel::Error { message } => r matches Err(
                    MailError::Rejected { asked, message: m },
                ) && asked == Asked::Drain && m@ == message,
                _ => r == Err::<(Vec<Envelope>, usize), MailError>(
                    MailError::UnexpectedReply(Asked::Drain),
                ),
            },
    {
        match reply {
            MailReply::Drained { envelopes, cursor } => Ok((envelopes, cursor)),
            MailReply::Error { message } => Err(
                MailError::Rejected { asked: Asked::Drain, message },
            ),
            _ => Err(MailError::UnexpectedReply(Asked::Drain)),
        }
    }

    /// The request that reads a page of the client's inbox.
    pub fn drain_page_request(&self, since: usize, limit: usize, grant: Grant) -> (r: MailRequest)
        ensures
            r@ == (crate::proto::RequestModel::DrainPage {
                recipient: crate::digest::hex_text(self@.node_id),
                since,
                limit,
                grant: grant@,
            }),
    {
        MailRequest::DrainPage { recipient: self.node_id_hex(), since, limit, grant }
    }

    /// What became of reading a page: the envelopes, the cursor after them and whether there are
    /// more.
    pub fn drained_page(&self, reply: MailReply) -> (r: Result<
        (Vec<Envelope>, usize, bool),
        MailError,
    >)
        ensures
            match reply@ {
                crate::proto::ReplyModel::Page { envelopes, cursor, more } => r matches Ok(
                    (es, c, m),
                ) && es.deep_view() == envelopes && c == cursor && m == more,
                crate::proto::ReplyModel::Error { message } => r matches Err(
                    MailError::Rejected { asked, message: m },
                ) && asked == Asked::DrainPage && m@ == message,
                _ => r == Err::<(Vec<Envelope>, usize, bool), MailError>(
                    MailError::UnexpectedReply(Asked::DrainPage),
                ),
            },
    {
        match reply {
            MailReply::Page { envelopes, cursor, more } => Ok((envelopes, cursor, more)),
            MailReply::Error { message } => Err(
                MailError::Rejected { asked: Asked::DrainPage, message },
            ),
            _ => Err(MailError::UnexpectedReply(Asked::DrainPage)),
        }
    }

    /// The request that deposits a receipt for `message_id`, signed by `sign` and stamped with the
    /// time `now`, for the sender `for_sender`.
    pub fn receipt_request<S: Fn(&[u8]) -> [u8; 64]>(
        &self,
        for_sender: &str,
        message_id: &str,
        kind: ReceiptKind,
        grant: Grant,
        now: u64,
        sign: &S,
    ) -> (r: MailRequest)
        requires
            crate::envelope::can_sign(*sign),
        ensures
            r@ matches crate::proto::RequestModel::PutReceipt { for_sender: f, receipt, grant: g }
                && f == for_sender@ && g == grant@ && receipt.body == (
            crate::receipt::ReceiptBodyModel {
                message_id: message_id@,
                by: crate::digest::hex_text(self@.node_id),
                kind,
                at: now,
            }) && crate::envelope::sign_says(
                *sign,
                crate::receipt::receipt_message(receipt.body),
                receipt.sig,
            ),
    {
        let receipt = Receipt::issue(&self.keys.node_id, sign, message_id, kind, now);
        MailRequest::PutReceipt { for_sender: for_sender.to_owned(), receipt, grant }
    }

    /// What became of a receipt: whether it had been deposited before.
    pub fn receipt_deposited(&self, reply: MailReply) -> (r: Result<bool, MailError>)
        ensures
            match reply@ {
                crate::proto::ReplyModel::ReceiptAccepted { duplicate } => r == Ok::<
                    bool,
                    MailError,
                >(duplicate),
                crate::proto::ReplyModel::Error { message } => r matches Err(
                    MailError::Rejected { asked, message: m },
                ) && asked == Asked::PutReceipt && m@ == message,
                _ => r == Err::<bool, MailError>(MailError::UnexpectedReply(Asked::PutReceipt)),
            },
    {
        match reply {
            MailReply::ReceiptAccepted { duplicate } => Ok(duplicate),
            MailReply::Error { message } => Err(
                MailError::Rejected { asked: Asked::PutReceipt, message },
            ),
            _ => Err(MailError::UnexpectedReply(Asked::PutReceipt)),
        }
    }

    /// The request that collects the receipts for the client.
    pub fn collect_request(&self, grant: Grant) -> (r: MailRequest)
        ensures
            r@ == (crate::proto::RequestModel::CollectReceipts {
                sender: crate::digest::hex_text(self@.node_id),
                grant: grant@,
            }),
    {
        MailRequest::CollectReceipts { sender: self.node_id_hex(), grant }
    }

    /// What became of collecting: those of the receipts whose signature `check` confirms, in their
    /// order.
    pub fn collected<F: Fn(&NodeId, &[u8], &[u8; 64]) -> bool>(
        &self,
        reply: MailReply,
        check: &F,
    ) -> (r: Result<Vec<Receipt>, MailError>)
        requires
            crate::envelope::can_check(*check),
        ensures
            match reply@ {
                crate::proto::ReplyModel::Receipts { receipts } => r matches Ok(rs)
                    && keeps_receipts(*check, receipts, rs.deep_view()),
                crate::proto::ReplyModel::Error { message } => r matches Err(
                    MailError::Rejected { asked, message: m },
                ) && asked == Asked::CollectReceipts && m@ == message,
                _ => r == Err::<Vec<Receipt>, MailError>(
                    MailError::UnexpectedReply(Asked::CollectReceipts),
                ),
            },
    {
        match reply {
            MailReply::Receipts { receipts } => Ok(verified_receipts(receipts, check)),
            MailReply::Error { message } => Err(
                MailError::Rejected { asked: Asked::CollectReceipts, message },
            ),
            _ => Err(MailError::UnexpectedReply(Asked::CollectReceipts)),
        }
    }

    /// The request that acknowledges the client's inbox up to the cursor.
    pub fn ack_request(&self, cursor: usize, grant: Grant) -> (r: MailRequest)
        ensures
            r@ == (crate::proto::RequestModel::Ack {
                recipient: crate::digest::hex_text(self@.node_id),
                cursor,
                grant: grant@,
            }),
    {
        MailRequest::Ack { recipient: self.node_id_hex(), cursor, grant }
    }

    /// What became of an acknowledgement: the number of envelopes that were removed.
    pub fn acked(&self, reply: MailReply) -> (r: Result<usize, MailError>)
        ensures
            match reply@ {
                crate::proto::ReplyModel::Acked { removed } => r == Ok::<usize, MailError>(removed),
                crate::proto::ReplyModel::Error { message } => r matches Err(
                    MailError::Rejected { asked, message: m },
                ) && asked == Asked::Ack && m@ == message,
                _ => r == Err::<usize, MailError>(MailError::UnexpectedReply(Asked::Ack)),
            },
    {
        match reply {
            MailReply::Acked { removed } => Ok(removed),
            MailReply::Error { message } => Err(MailError::Rejected { asked: Asked::Ack, message }),
            _ => Err(MailError::UnexpectedReply(Asked::Ack)),
        }
    }
}

/// Whether `out` is those of the receipts whose signature `check` finds to hold.
pub open spec fn keeps_receipts<F: Fn(&NodeId, &[u8], &[u8; 64]) -> bool>(
    check: F,
    receipts: Seq<ReceiptModel>,
    out: Seq<ReceiptModel>,
) -> bool {
    exists|oks: Seq<bool>|
        oks.len() == receipts.len() && out == #[trigger] kept(receipts, oks) && (forall|i: int|
            0 <= i < receipts.len() ==> receipt_holds(check, #[trigger] receipts[i], oks[i]))
}

/// Whether `out` is those of the envelopes whose signature `check` finds to hold.
pub open spec fn keeps_envelopes<F: Fn(&NodeId, &[u8], &[u8; 64]) -> bool>(
    check: F,
    envelopes: Seq<EnvelopeModel>,
    out: Seq<EnvelopeModel>,
) -> bool {
    exists|oks: Seq<bool>|
        oks.len() == envelopes.len() && out == #[trigger] kept(envelopes, oks) && (forall|i: int|
            0 <= i < envelopes.len() ==> envelope_holds(check, #[trigger] envelopes[i], oks[i]))
}

/// Those of the receipts whose signature `check` confirms, in their order.
fn verified_receipts<F: Fn(&NodeId, &[u8], &[u8; 64]) -> bool>(
    receipts: Vec<Receipt>,
    check: &F,
) -> (r: Vec<Receipt>)
    requires
        crate::envelope::can_check(*check),
    ensures
        keeps_receipts(*check, receipts.deep_view(), r.deep_view()),
{
    let ghost all = receipts.deep_view();
    let ghost mut oks: Seq<bool> = Seq::empty();
    let mut out: Vec<Receipt> = Vec::new();
    assert(out.deep_view() =~= kept(all.take(0), oks));
    for x in it: receipts
        invariant
            it.seq() == receipts@,
            all == receipts.deep_view(),
            crate::envelope::can_check(*check),
            oks.len() == it.index(),
            out.deep_view() == kept(all.take(it.index() as int), oks),
            forall|i: int|
                0 <= i < it.index() ==> receipt_holds(*check, #[trigger] all[i], oks[i]),
    {
        let ok: bool = x.verify(check).is_ok();
        let ghost n = it.index() as int;
        proof {
            let longer = oks.push(ok);
            assert(all[n] == x@);
            assert(receipt_holds(*check, all[n], ok));
            assert(all.take(n + 1).drop_last() =~= all.take(n));
            lemma_kept_ignores_rest(all.take(n), oks, longer);
            oks = longer;
        }
        let ghost before = out.deep_view();
        if ok {
            out.push(x);
            assert(out.deep_view() =~= before.push(x@));
        }
    }
    assert(all.take(all.len() as int) =~= all);
    out
}

/// Those of the envelopes whose signature `check` confirms, in their order.
pub fn verified_envelopes<F: Fn(&NodeId, &[u8], &[u8; 64]) -> bool>(
    envelopes: Vec<Envelope>,
    check: &F,
) -> (r: Vec<Envelope>)
    requires
        crate::envelope::can_check(*check),
    ensures
        keeps_envelopes(*check, envelopes.deep_view(), r.deep_view()),
{
    let ghost all = envelopes.deep_view();
    let ghost mut oks: Seq<bool> = Seq::empty();
    let mut out: Vec<Envelope> = Vec::new();
    assert(out.deep_view() =~= kept(all.take(0), oks));
    for x in it: envelopes
        invariant
            it.seq() == envelopes@,
            all == envelopes.deep_view(),
            crate::envelope::can_check(*check),
            oks.len() == it.index(),
            out.deep_view() == kept(all.take(it.index() as int), oks),
            forall|i: int|
                0 <= i < it.index() ==> envelope_holds(*check, #[trigger] all[i], oks[i]),
    {
        let ok: bool = x.verify(check).is_ok();
        let ghost n = it.index() as int;
        proof {
            let longer = oks.push(ok);
            assert(all[n] == x@);
            assert(envelope_holds(*check, all[n], ok));
            assert(all.take(n + 1).drop_last() =~= all.take(n));
            lemma_kept_ignores_rest(all.take(n), oks, longer);
            oks = longer;
        }
        let ghost before = out.deep_view();
        if ok {
            out.push(x);
            assert(out.deep_view() =~= before.push(x@));
        }
    }
    assert(all.take(all.len() as int) =~= all);
    out
}

/// The attachment in a blob that is opened with `secret`.
pub open spec fn attachment_in(secret: Seq<u8>, blob: Seq<u8>) -> Result<
    AttachmentModel,
    MailError,
> {
    match crate::crypto::SealedBody::parse(blob) {
        None => Err(MailError::Malformed(crate::error::Format::SealedBody)),
        Some((sealed, _)) => match crate::crypto::opened_as(secret, sealed) {
            Err(e) => Err(e),
            Ok(plaintext) => match Attachment::parse(plaintext) {
                Some((a, _)) => Ok(a),
                None => Err(MailError::Malformed(crate::error::Format::Attachment)),
            },
        },
    }
}

/// The CID of the body blob that has to be fetched to open the envelope; `None` if it has no body.
pub fn body_blob(envelope: &Envelope) -> (r: Option<&String>)
    ensures
        match r {
            Some(cid) => cid@ == envelope@.body.body_cid && cid@.len() > 0,
            None => envelope@.body.body_cid.len() == 0,
        },
{
    if envelope.body.body_cid.as_str().is_empty() {
        None
    } else {
        Some(&envelope.body.body_cid)
    }
}

/// The CID of the blob that has to be fetched to open an attachment of the envelope.
pub fn attachment_blob(envelope: &Envelope, index: usize) -> (r: Result<&String, MailError>)
    ensures
        ({
            let cids = envelope@.body.attachment_cids;
            if index >= cids.len() {
                r == Err::<&String, MailError>(MailError::NoSuchAttachment(index))
            } else if cids[index as int].len() == 0 {
                r == Err::<&String, MailError>(MailError::AttachmentWithoutCid(index))
            } else {
                r is Ok && r->Ok_0@ == cids[index as int]
            }
        }),
{
    if index >= envelope.body.attachment_cids.len() {
        return Err(MailError::NoSuchAttachment(index));
    }
    let cid = &envelope.body.attachment_cids[index];
    assert(envelope@.body.attachment_cids[index as int] == cid@);
    if cid.as_str().is_empty() {
        Err(MailError::AttachmentWithoutCid(index))
    } else {
        Ok(cid)
    }
}

impl MailClient {
    /// Opens a body blob: the body, and the subject if one was sealed with it.
    pub fn open_content(&self, blob: &[u8]) -> (r: Result<(Vec<u8>, Option<String>), MailError>)
        ensures
            match content_of(self@.secret, blob@) {
                Ok((body, subject)) => r matches Ok((b, s)) && b@ == body && text_view(s)
                    == subject,
                Err(e) => r == Err::<(Vec<u8>, Option<String>), MailError>(e),
            },
    {
        let sealed = match decode_sealed(blob) {
            Ok(sealed) => sealed,
            Err(e) => return Err(e),
        };
        let plaintext = match open(&self.keys.secret, &sealed) {
            Ok(plaintext) => plaintext,
            Err(e) => return Err(e),
        };
        match BodyContent::try_decode(plaintext.as_slice()) {
            Some(content) => Ok((content.body, Some(content.subject))),
            None => Ok((plaintext, None)),
        }
    }

    /// Opens the body of an envelope, whose body blob is given. An envelope without a body has an
    /// empty one, whatever the blob.
    pub fn open_body(&self, envelope: &Envelope, blob: &[u8]) -> (r: Result<Vec<u8>, MailError>)
        ensures
            match opened(self@.secret, envelope@, blob@) {
                Ok((body, _)) => r is Ok && r->Ok_0@ == body,
                Err(e) => r == Err::<Vec<u8>, MailError>(e),
            },
    {
        match body_blob(envelope) {
            None => {
                let nothing: Vec<u8> = Vec::new();
                assert(nothing@ =~= Seq::<u8>::empty());
                Ok(nothing)
            },
            Some(_) => match self.open_content(blob) {
                Ok((body, _)) => Ok(body),
                Err(e) => Err(e),
            },
        }
    }

    /// Opens a verified envelope, whose body blob is given, into a message. An envelope without a
    /// body has an empty one, whatever the blob.
    pub fn open_message(&self, envelope: &Envelope, blob: &[u8]) -> (r: Result<Message, MailError>)
        ensures
            match opened(self@.secret, envelope@, blob@) {
                Ok((body, sealed_subject)) => r is Ok && r->Ok_0@ == (MessageModel {
                    envelope: envelope@,
                    body,
                    sealed_subject,
                }),
                Err(e) => r == Err::<Message, MailError>(e),
            },
    {
        match body_blob(envelope) {
            None => {
                let nothing: Vec<u8> = Vec::new();
                assert(nothing@ =~= Seq::<u8>::empty());
                Ok(Message { envelope: envelope.clone(), body: nothing, sealed_subject: None })
            },
            Some(_) => match self.open_content(blob) {
                Ok((body, sealed_subject)) => Ok(
                    Message { envelope: envelope.clone(), body, sealed_subject },
                ),
                Err(e) => Err(e),
            },
        }
    }

    /// The message made of a verified envelope and of its body blob, if it could be fetched. What
    /// cannot be fetched or opened is an empty body.
    pub fn compose_message(&self, envelope: Envelope, blob: Option<Vec<u8>>) -> (r: Message)
        ensures
            r@ == composed(self@.secret, envelope@, blob_view(blob)),
    {
        let nothing: Vec<u8> = Vec::new();
        assert(nothing@ =~= Seq::<u8>::empty());
        match blob {
            None => Message { envelope, body: nothing, sealed_subject: None },
            Some(bytes) => match self.open_message(&envelope, bytes.as_slice()) {
                Ok(message) => message,
                Err(_) => Message { envelope, body: nothing, sealed_subject: None },
            },
        }
    }

    /// Opens the blob of an attachment.
    pub fn open_attachment(&self, blob: &[u8]) -> (r: Result<Attachment, MailError>)
        ensures
            match attachment_in(self@.secret, blob@) {
                Ok(a) => r is Ok && r->Ok_0@ == a,
                Err(e) => r == Err::<Attachment, MailError>(e),
            },
    {
        let sealed = match decode_sealed(blob) {
            Ok(sealed) => sealed,
            Err(e) => return Err(e),
        };
        match open(&self.keys.secret, &sealed) {
            Ok(plaintext) => Attachment::decode(plaintext.as_slice()),
            Err(e) => Err(e),
        }
    }
}

/// Whether `verdicts` can be what the policy makes of the messages, with these standings of their
/// senders.
pub open spec fn screens<F: Fn(&str) -> Option<Amount>>(
    policy: PolicyModel,
    messages: Seq<MessageModel>,
    standings: Seq<SenderStanding>,
    verify_postage: F,
    verdicts: Seq<Verdict>,
) -> bool {
    &&& verdicts.len() == messages.len()
    &&& forall|i: int|
        0 <= i < messages.len() ==> gets_verdict(
            policy,
            #[trigger] messages[i],
            standings[i],
            verify_postage,
            verdicts[i],
        )
}

/// Whether the verdict can be what the policy makes of the message.
pub open spec fn gets_verdict<F: Fn(&str) -> Option<Amount>>(
    policy: PolicyModel,
    message: MessageModel,
    standing: SenderStanding,
    verify_postage: F,
    verdict: Verdict,
) -> bool {
    exists|paid: Option<u128>| #[trigger]
        policy.verdict(message.envelope, standing, paid) == verdict && (policy.asks_postage(
            message.envelope,
            standing,
        ) ==> crate::screening::postage_says(
            verify_postage,
            message.envelope.body.postage_receipt,
            paid,
        ))
}

/// Which of the verdicts let a message into the inbox.
pub open spec fn let_in(verdicts: Seq<Verdict>) -> Seq<bool> {
    Seq::new(verdicts.len(), |i: int| verdicts[i] is Inbox)
}

/// Which of the verdicts put a message aside.
pub open spec fn put_aside(verdicts: Seq<Verdict>) -> Seq<bool> {
    Seq::new(verdicts.len(), |i: int| verdicts[i] is Spam)
}

/// Splits messages by a policy into those for the inbox and those put aside, each in their order.
/// Those that are refused are dropped. `standings` says what is on record of each sender.
pub fn screen_messages<F: Fn(&str) -> Option<Amount>>(
    policy: &ScreeningPolicy,
    messages: Vec<Message>,
    standings: &Vec<SenderStanding>,
    verify_postage: &F,
) -> (r: (Vec<Message>, Vec<Message>))
    requires
        messages@.len() == standings@.len(),
        forall|s: &str| #[trigger] call_requires(*verify_postage, (s,)),
    ensures
        exists|verdicts: Seq<Verdict>| #[trigger]
            screens(
                policy@,
                messages.deep_view(),
                standings@,
                *verify_postage,
                verdicts,
            ) && r.0.deep_view() == kept(messages.deep_view(), let_in(verdicts))
                && r.1.deep_view() == kept(messages.deep_view(), put_aside(verdicts)),
{
    let ghost all = messages.deep_view();
    let ghost mut verdicts: Seq<Verdict> = Seq::empty();
    let mut inbox: Vec<Message> = Vec::new();
    let mut spam: Vec<Message> = Vec::new();
    assert(inbox.deep_view() =~= kept(all.take(0), let_in(verdicts)));
    assert(spam.deep_view() =~= kept(all.take(0), put_aside(verdicts)));
    let total: usize = standings.len();
    let mut at: usize = 0;
    for x in it: messages
        invariant
            it.seq() == messages@,
            at == it.index(),
            total == standings@.len(),
            all == messages.deep_view(),
            messages@.len() == standings@.len(),
            forall|s: &str| #[trigger] call_requires(*verify_postage, (s,)),
            verdicts.len() == it.index(),
            inbox.deep_view() == kept(all.take(it.index() as int), let_in(verdicts)),
            spam.deep_view() == kept(all.take(it.index() as int), put_aside(verdicts)),
            forall|i: int|
                0 <= i < it.index() ==> gets_verdict(
                    policy@,
                    #[trigger] all[i],
                    standings@[i],
                    *verify_postage,
                    verdicts[i],
                ),
    {
        let verdict = policy.screen(&x.envelope, standings[at], verify_postage);
        let ghost n = at as int;
        assert(at < total);
        proof {
            let longer = verdicts.push(verdict);
            assert(all[n] == x@);
            assert(gets_verdict(policy@, all[n], standings@[n], *verify_postage, verdict));
            assert(all.take(n + 1).drop_last() =~= all.take(n));
            lemma_kept_ignores_rest(all.take(n), let_in(verdicts), let_in(longer));
            lemma_kept_ignores_rest(all.take(n), put_aside(verdicts), put_aside(longer));
            verdicts = longer;
        }
        let ghost old_inbox = inbox.deep_view();
        let ghost old_spam = spam.deep_view();
        match verdict {
            Verdict::Inbox { .. } => {
                inbox.push(x);
                assert(inbox.deep_view() =~= old_inbox.push(x@));
            },
            Verdict::Spam => {
                spam.push(x);
                assert(spam.deep_view() =~= old_spam.push(x@));
            },
            Verdict::Rejected => {},
        }
        at = at + 1;
    }
    assert(all.take(all.len() as int) =~= all);
    assert(screens(policy@, all, standings@, *verify_postage, verdicts));
    (inbox, spam)
}

/// What was sealed for a recipient opens there: the body is what was sent, and the subject too if
/// it was sealed. A body that was sent alone must not look like one with a subject.
pub proof fn lemma_sent_content_opens(
    o: OptionsModel,
    recipient: Seq<u8>,
    secret: Seq<u8>,
    blob: Seq<u8>,
)
    requires
        crate::crypto::is_key_pair(recipient, secret),
        is_sealed_blob(blob, recipient, o.body_plaintext()),
        <(String, Vec<u8>)>::fits((o.subject, o.body)),
        !o.seal_subject ==> parse_content(o.body) is None,
    ensures
        content_of(secret, blob) == Ok::<(Seq<u8>, Option<Seq<char>>), MailError>(
            (
                o.body,
                if o.seal_subject {
                    Some(o.subject)
                } else {
                    None
                },
            ),
        ),
{
    let s = choose|s: crate::crypto::SealedModel| #[trigger]
        crate::crypto::SealedBody::fits(s) && blob == crate::crypto::SealedBody::wire(s)
            && is_sealing(s, recipient, o.body_plaintext());
    crate::crypto::lemma_sealed_round_trip(s);
    if o.seal_subject {
        lemma_content_round_trip(o.subject, o.body);
    }
}

/// A plaintext that holds a subject beside the body reads back as both.
pub proof fn lemma_content_round_trip(subject: Seq<char>, body: Seq<u8>)
    requires
        <(String, Vec<u8>)>::fits((subject, body)),
    ensures
        parse_content(content_bytes(subject, body)) == Some((subject, body)),
{
    let none = Seq::<u8>::empty();
    let w = <(String, Vec<u8>)>::wire((subject, body));
    assert(content_bytes(subject, body).skip(1) =~= w + none);
    <(String, Vec<u8>)>::lemma_reads_back((subject, body), none);
}

/// An attachment that was sealed for a recipient opens there as it was sent.
pub proof fn lemma_sent_attachment_opens(
    a: AttachmentModel,
    recipient: Seq<u8>,
    secret: Seq<u8>,
    blob: Seq<u8>,
)
    requires
        crate::crypto::is_key_pair(recipient, secret),
        is_sealed_blob(blob, recipient, Attachment::wire(a)),
        Attachment::fits(a),
    ensures
        attachment_in(secret, blob) == Ok::<AttachmentModel, MailError>(a),
{
    let s = choose|s: crate::crypto::SealedModel| #[trigger]
        crate::crypto::SealedBody::fits(s) && blob == crate::crypto::SealedBody::wire(s)
            && is_sealing(s, recipient, Attachment::wire(a));
    crate::crypto::lemma_sealed_round_trip(s);
    crate::attachment::lemma_attachment_round_trip(a);
}

/// An envelope says nothing of a sealed subject: with another subject it would be the same.
pub proof fn lemma_sealed_subject_is_hidden(
    o: OptionsModel,
    other: Seq<char>,
    from: Seq<char>,
    cids: Seq<Seq<char>>,
    now: u64,
)
    requires
        o.seal_subject,
    ensures
        o.contents(from, cids, now).subject == REDACTED_SUBJECT@,
        o.contents(from, cids, now) == (OptionsModel { subject: other, ..o }).contents(
            from,
            cids,
            now,
        ),
{
}

/// The envelope names the blobs in the order in which they were stored: the body first, if there is
/// one to store, and one CID for each attachment.
pub proof fn lemma_envelope_names_blobs(
    o: OptionsModel,
    from: Seq<char>,
    cids: Seq<Seq<char>>,
    now: u64,
)
    requires
        cids.len() == o.plaintexts().len(),
    ensures
        o.contents(from, cids, now).attachment_cids.len() == o.attachments.len(),
        o.has_body_blob() ==> o.contents(from, cids, now).body_cid == cids[0],
        !o.has_body_blob() ==> o.contents(from, cids, now).body_cid.len() == 0,
{
}

} // verus!
