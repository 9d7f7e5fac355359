//! What sending and reading mail come to, said of calls and what they give.

use crate::attachment::Attachment;
use crate::client::{
    attachment_blob, body_blob, BodyContent, Keys, MailClient, Message, Outgoing, SendAction,
    SendOptions,
};
use crate::crypto::{decode_sealed, open, x25519_public_from_node_id, SealedBody};
use crate::digest::NodeId;
use crate::envelope::{parse_node_id, Envelope};
use crate::error::{Asked, MailError, Measured};
use crate::limits::Limits;
use crate::proto::{Grant, MailReply, MailRequest};
use crate::receipt::{Receipt, ReceiptKind};
use crate::wire::Wire;
use vstd::prelude::*;

verus! {

/// Whether the attachment at `i` is the first that is larger than `limit`.
pub open spec fn is_first_large(attachments: Seq<Attachment>, i: int, limit: usize) -> bool {
    &&& 0 <= i < attachments.len()
    &&& attachments[i].bytes@.len() > limit
    &&& forall|j: int| 0 <= j < i ==> (#[trigger] attachments[j]).bytes@.len() <= limit
}

proof fn lemma_first_large(attachments: Seq<Attachment>, o: SendOptions, from: int, limit: usize)
    requires
        attachments == o.attachments@,
        0 <= from <= attachments.len(),
        forall|j: int| 0 <= j < from ==> (#[trigger] attachments[j]).bytes@.len() <= limit,
    ensures
        match crate::client::first_large(o@.attachments, from, limit) {
            Some(i) => is_first_large(attachments, i, limit),
            None => forall|j: int|
                0 <= j < attachments.len() ==> (#[trigger] attachments[j]).bytes@.len() <= limit,
        },
    decreases attachments.len() - from,
{
    if from < attachments.len() {
        assert(o@.attachments[from] == attachments[from]@);
        if attachments[from].bytes@.len() <= limit {
            lemma_first_large(attachments, o, from + 1, limit);
        }
    }
}

/// A message can be started exactly if its recipient is a node id, its body and each attachment are
/// within the limits, and there are not too many attachments. What is wrong first is reported, in that
/// order, and of several attachments the first that is too large.
pub proof fn lemma_send_starts(
    c: &MailClient,
    o: SendOptions,
    to: &str,
    key: Result<NodeId, MailError>,
    r: Result<Outgoing, MailError>,
)
    requires
        to@ == o.to@,
        call_ensures(parse_node_id, (to,), key),
        call_ensures(MailClient::send, (c, o), r),
    ensures
        r is Ok <==> key is Ok && o.body@.len() <= c@.limits.max_body_bytes
            && o.attachments@.len() <= c@.limits.max_attachments && forall|i: int|
            0 <= i < o.attachments@.len() ==> (#[trigger] o.attachments@[i]).bytes@.len()
                <= c@.limits.max_attachment_bytes,
        r matches Ok(out) ==> out@.recipient == key->Ok_0@ && out@.stored.len() == 0,
        key matches Err(e) ==> r == Err::<Outgoing, MailError>(e),
        key is Ok && o.body@.len() > c@.limits.max_body_bytes ==> r == Err::<Outgoing, MailError>(
            MailError::TooLarge {
                what: Measured::Body,
                size: o.body@.len() as usize,
                limit: c@.limits.max_body_bytes,
            },
        ),
        key is Ok && o.body@.len() <= c@.limits.max_body_bytes && o.attachments@.len()
            > c@.limits.max_attachments ==> r == Err::<Outgoing, MailError>(
            MailError::TooManyAttachments {
                count: o.attachments@.len() as usize,
                limit: c@.limits.max_attachments,
            },
        ),
        key is Ok && o.body@.len() <= c@.limits.max_body_bytes && o.attachments@.len()
            <= c@.limits.max_attachments ==> forall|i: int| #[trigger]
            is_first_large(o.attachments@, i, c@.limits.max_attachment_bytes) ==> (r matches Err(
                MailError::AttachmentTooLarge { filename, size, limit },
            ) && filename@ == o.attachments@[i].filename@ && size == o.attachments@[i].bytes@.len()
                && limit == c@.limits.max_attachment_bytes),
{
    let limit = c@.limits.max_attachment_bytes;
    lemma_first_large(o.attachments@, o, 0, limit);
    let found = crate::client::first_large(o@.attachments, 0, limit);
    if let Some(k) = found {
        assert(o@.attachments[k] == o.attachments@[k]@);
    }
    assert forall|i: int| #[trigger] is_first_large(o.attachments@, i, limit) implies found == Some(
        i,
    ) by {
        let k = found->0;
        if found is Some {
            if k < i {
                assert(o.attachments@[k].bytes@.len() <= limit);
            } else if i < k {
                assert(o.attachments@[i].bytes@.len() <= limit);
            }
        } else {
            assert(o.attachments@[i].bytes@.len() <= limit);
        }
    }
}

/// Whether the message on its way is the one that was started with these options.
pub open spec fn was_started(c: &MailClient, o: SendOptions, out: &Outgoing) -> bool {
    exists|started: Outgoing| #[trigger]
        call_ensures(MailClient::send, (c, o), Ok::<Outgoing, MailError>(started))
            && out@.options == started@.options && out@.recipient == started@.recipient
}

/// How many blobs are stored before those of the attachments: the body's, if there is one to store.
pub open spec fn before_attachments(o: SendOptions) -> int {
    if o.seal_subject || o.body@.len() > 0 {
        1
    } else {
        0
    }
}

proof fn lemma_counts(o: SendOptions)
    ensures
        o@.plaintexts().len() == before_attachments(o) + o.attachments@.len(),
        o@.has_body_blob() == (before_attachments(o) == 1),
        forall|i: int|
            0 <= i < o.attachments@.len() ==> o@.plaintexts()[before_attachments(o) + i]
                == Attachment::wire((#[trigger] o.attachments@[i])@),
{
    assert forall|i: int| 0 <= i < o.attachments@.len() implies o@.plaintexts()[before_attachments(
        o,
    ) + i] == Attachment::wire((#[trigger] o.attachments@[i])@) by {
        assert(o@.attachments[i] == o.attachments@[i]@);
    }
}

/// Storing a blob adds its CID behind those stored before and changes nothing else.
pub proof fn lemma_blob_stored(out: &mut Outgoing, cid: String, r: ())
    requires
        call_ensures(Outgoing::blob_stored, (out, cid), r),
    ensures
        final(out)@.stored == old(out)@.stored.push(cid@),
        final(out)@.options == old(out)@.options,
        final(out)@.recipient == old(out)@.recipient,
{
}

/// Once all blobs are stored, an envelope is delivered that says what the options say: the recipient,
/// the message replied to and the postage as they are given, whether or not the subject is sealed, the
/// subject unless it is sealed, the time, the sender's own node id, and the CIDs in the order in which
/// the blobs were stored. It goes to the mailbox with the grant if one is named, and else to the
/// recipient with none.
pub proof fn lemma_delivered_envelope<S: Fn(&[u8]) -> [u8; 64]>(
    c: &MailClient,
    o: SendOptions,
    out: &Outgoing,
    now: u64,
    sign: &S,
    nothing: Grant,
    r: Result<SendAction, MailError>,
)
    requires
        was_started(c, o, out),
        out@.stored.len() >= before_attachments(o) + o.attachments@.len(),
        call_ensures(Grant::none, (), nothing),
        call_ensures(MailClient::next_action::<S>, (c, out, now, sign), r),
    ensures
        r matches Ok(
            SendAction::Deliver { message_id, to, request: MailRequest::Deliver { envelope, grant } },
        ) && {
            &&& envelope.body.to@ == o.to@
            &&& envelope.body.in_reply_to@ == o.in_reply_to@
            &&& envelope.body.postage_receipt@ == o.postage_receipt@
            &&& !o.seal_subject ==> envelope.body.subject@ == o.subject@
            &&& o.seal_subject ==> envelope.body.subject@ == "(encrypted subject)"@
            &&& envelope.body.sent_at == now
            &&& envelope.body.from@ == crate::digest::hex_text(c@.node_id)
            &&& o.seal_subject || o.body@.len() > 0 ==> envelope.body.body_cid@ == out@.stored[0]
            &&& !o.seal_subject && o.body@.len() == 0 ==> envelope.body.body_cid@.len() == 0
            &&& envelope.body.attachment_cids@.len() == out@.stored.len() - before_attachments(o)
            &&& forall|i: int|
                0 <= i < envelope.body.attachment_cids@.len() ==> (
                #[trigger] envelope.body.attachment_cids@[i])@ == out@.stored[before_attachments(o)
                    + i]
            &&& message_id@ == crate::thread_laws::id_of(envelope)
            &&& o.mailbox matches Some(m) ==> to@ == m@ && grant.chain@ == o.grant.chain@
            &&& o.mailbox is None ==> to@ == o.to@ && grant.chain@ == nothing.chain@
            &&& exists|m: &[u8], s: [u8; 64]|
                m@ == crate::wire::text_bytes("ce-mail-envelope-v1"@)
                    + crate::signing_laws::fields_in_a_row(envelope.body) && s@ == envelope.sig@
                    && #[trigger] call_ensures(*sign, (m,), s)
        },
{
    lemma_started(c, o, out);
    lemma_counts(o);
    if let Ok(
        SendAction::Deliver { message_id, to, request: MailRequest::Deliver { envelope, grant } },
    ) = r {
        let done = out@.stored;
        let contents = o@.contents(crate::digest::hex_text(c@.node_id), done, now);
        assert(envelope@.body == contents);
        assert forall|i: int| 0 <= i < envelope.body.attachment_cids@.len() implies (
        #[trigger] envelope.body.attachment_cids@[i])@ == done[before_attachments(o) + i] by {
            let x = envelope.body.attachment_cids.deep_view();
            assert(x == contents.attachment_cids);
            assert(x[i] == envelope.body.attachment_cids@[i].deep_view());
        }
        assert(envelope.body.attachment_cids.deep_view().len()
            == envelope.body.attachment_cids@.len());
        crate::thread_laws::lemma_id_of(envelope);
        crate::signing_laws::lemma_bytes_of_fields(envelope.body);
    }
}

/// As long as the body is not stored, the next thing is to store it sealed, and the recipient who opens
/// it finds the body that was given, and the subject if that was sealed. A body that was sent alone
/// must not look like one with a subject.
pub proof fn lemma_stored_body_opens<S: Fn(&[u8]) -> [u8; 64]>(
    c: &MailClient,
    o: SendOptions,
    out: &Outgoing,
    now: u64,
    sign: &S,
    content: &BodyContent,
    encoded: Result<Vec<u8>, MailError>,
    body: &[u8],
    decoded: Option<BodyContent>,
    reader: &MailClient,
    blob: &[u8],
    r: Result<SendAction, MailError>,
    opened: Result<(Vec<u8>, Option<String>), MailError>,
)
    requires
        was_started(c, o, out),
        out@.stored.len() == 0,
        o.seal_subject || o.body@.len() > 0,
        call_ensures(MailClient::next_action::<S>, (c, out, now, sign), r),
        content.subject@ == o.subject@ && content.body@ == o.body@,
        call_ensures(BodyContent::encode, (content,), encoded),
        body@ == o.body@,
        call_ensures(BodyContent::try_decode, (body,), decoded),
        crate::crypto::is_key_pair(out@.recipient, reader@.secret),
        r matches Ok(SendAction::StoreBlob { bytes }) ==> blob@ == bytes@,
        call_ensures(MailClient::open_content, (reader, blob), opened),
    ensures
        r is Ok ==> r->Ok_0 is StoreBlob,
        r is Ok && o.seal_subject ==> (opened matches Ok((b, Some(s))) && b@ == o.body@ && s@
            == o.subject@),
        r is Ok && !o.seal_subject && decoded is None ==> (opened matches Ok((b, None)) && b@
            == o.body@),
{
    lemma_started(c, o, out);
    lemma_counts(o);
    assert(o@.plaintexts()[0] == o@.body_plaintext());
    if r is Ok && (o.seal_subject || decoded is None) {
        crate::client::lemma_sent_content_opens(o@, out@.recipient, reader@.secret, blob@);
    }
}

/// Behind the body come the attachments in their order: the next thing is to store the next one sealed,
/// and the recipient who opens it finds the attachment that was given.
pub proof fn lemma_stored_attachment_opens<S: Fn(&[u8]) -> [u8; 64]>(
    c: &MailClient,
    o: SendOptions,
    out: &Outgoing,
    now: u64,
    sign: &S,
    a: &Attachment,
    encoded: Result<Vec<u8>, MailError>,
    reader: &MailClient,
    blob: &[u8],
    r: Result<SendAction, MailError>,
    opened: Result<Attachment, MailError>,
)
    requires
        was_started(c, o, out),
        before_attachments(o) <= out@.stored.len() < before_attachments(o) + o.attachments@.len(),
        *a == o.attachments@[out@.stored.len() - before_attachments(o)],
        call_ensures(MailClient::next_action::<S>, (c, out, now, sign), r),
        call_ensures(Attachment::encode, (a,), encoded),
        crate::crypto::is_key_pair(out@.recipient, reader@.secret),
        r matches Ok(SendAction::StoreBlob { bytes }) ==> blob@ == bytes@,
        call_ensures(MailClient::open_attachment, (reader, blob), opened),
    ensures
        r is Ok ==> r->Ok_0 is StoreBlob,
        r is Ok ==> (opened matches Ok(b) && b.filename@ == a.filename@ && b.content_type@
            == a.content_type@ && b.bytes@ == a.bytes@),
{
    lemma_started(c, o, out);
    lemma_counts(o);
    let i = out@.stored.len() - before_attachments(o);
    assert(o@.plaintexts()[before_attachments(o) + i] == Attachment::wire(o.attachments@[i]@));
    if r is Ok {
        crate::client::lemma_sent_attachment_opens(a@, out@.recipient, reader@.secret, blob@);
    }
}

proof fn lemma_started(c: &MailClient, o: SendOptions, out: &Outgoing)
    requires
        was_started(c, o, out),
    ensures
        out@.options == o@,
{
    let started = choose|started: Outgoing| #[trigger]
        call_ensures(MailClient::send, (c, o), Ok::<Outgoing, MailError>(started))
            && out@.options == started@.options && out@.recipient == started@.recipient;
    assert(started@.options == o@);
}

/// Whether this many bytes can be sealed at once.
pub open spec fn can_be_sealed(n: nat) -> bool {
    n <= 274877906816 && n + 16 <= isize::MAX
}

/// Storing fails only where the recipient's node id is no key, or where what is to be sealed is larger
/// than the cipher takes: the body, the body with the subject in front of it where that is sealed, or
/// the attachment.
pub proof fn lemma_storing_fails_only_if<S: Fn(&[u8]) -> [u8; 64]>(
    c: &MailClient,
    o: SendOptions,
    out: &Outgoing,
    now: u64,
    sign: &S,
    content: &BodyContent,
    plaintext: Result<Vec<u8>, MailError>,
    a: &Attachment,
    encoded: Result<Vec<u8>, MailError>,
    id: &NodeId,
    key: Result<NodeId, MailError>,
    r: Result<SendAction, MailError>,
)
    requires
        was_started(c, o, out),
        out@.stored.len() < before_attachments(o) + o.attachments@.len(),
        call_ensures(MailClient::next_action::<S>, (c, out, now, sign), r),
        id@ == out@.recipient,
        call_ensures(x25519_public_from_node_id, (id,), key),
        content.subject@ == o.subject@ && content.body@ == o.body@,
        call_ensures(BodyContent::encode, (content,), plaintext),
        out@.stored.len() >= before_attachments(o) ==> *a == o.attachments@[out@.stored.len()
            - before_attachments(o)],
        call_ensures(Attachment::encode, (a,), encoded),
    ensures
        key is Err ==> r == Err::<SendAction, MailError>(MailError::NotAKey),
        ({
            let n = if out@.stored.len() >= before_attachments(o) {
                encoded->Ok_0@.len()
            } else if o.seal_subject {
                plaintext->Ok_0@.len()
            } else {
                o.body@.len()
            };
            key is Ok ==> if can_be_sealed(n) {
                r is Ok
            } else {
                r == Err::<SendAction, MailError>(MailError::SealFailed)
            }
        }),
{
    lemma_started(c, o, out);
    lemma_counts(o);
    if out@.stored.len() >= before_attachments(o) {
        let i = out@.stored.len() - before_attachments(o);
        assert(o@.plaintexts()[before_attachments(o) + i] == Attachment::wire(o.attachments@[i]@));
    } else {
        assert(o@.plaintexts()[0] == o@.body_plaintext());
    }
}

/// A plaintext with a subject is a byte that says so, the subject and the body, each with its length
/// in front. It reads back as both. What does not start with that byte is a body alone.
pub proof fn lemma_content_reads_back(
    content: &BodyContent,
    encoded: Result<Vec<u8>, MailError>,
    bytes: &[u8],
    r: Option<BodyContent>,
)
    requires
        call_ensures(BodyContent::encode, (content,), encoded),
        call_ensures(BodyContent::try_decode, (bytes,), r),
    ensures
        encoded matches Ok(b) && b@ == seq![0xC5u8] + crate::wire::text_bytes(content.subject@)
            + crate::wire::le64(content.body@.len() as u64) + content.body@,
        bytes@ == encoded->Ok_0@ ==> (r matches Some(back) && back.subject@ == content.subject@
            && back.body@ == content.body@),
        bytes@.len() == 0 || bytes@[0] != 0xC5 ==> r is None,
        r matches Some(back) && back.subject@ == content.subject@ && back.body@ == content.body@
            ==> encoded->Ok_0@.is_prefix_of(bytes@),
{
    crate::wire::lemma_bytes_of_bytes(content.body@);
    let w = <(String, Vec<u8>)>::wire((content.subject@, content.body@));
    assert(encoded->Ok_0@ == seq![0xC5u8] + w);
    assert(seq![0xC5u8] + w =~= seq![0xC5u8] + crate::wire::text_bytes(content.subject@)
        + crate::wire::le64(content.body@.len() as u64) + content.body@);
    crate::client::lemma_content_round_trip(content.subject@, content.body@);
    if let Some(back) = r {
        <(String, Vec<u8>)>::lemma_wrote(bytes@.skip(1));
        if back.subject@ == content.subject@ && back.body@ == content.body@ {
            let (v, rest) = <(String, Vec<u8>)>::parse(bytes@.skip(1))->0;
            assert(bytes@ =~= seq![0xC5u8] + bytes@.skip(1));
            assert(bytes@ =~= seq![0xC5u8] + w + rest);
            assert(bytes@.subrange(0, (seq![0xC5u8] + w).len() as int) =~= seq![0xC5u8] + w);
        }
    }
}

/// What a delivery is answered with decides: the id if it was taken, whether or not for the second
/// time; the reason if it was refused; and a complaint if the answer is to something else.
pub proof fn lemma_delivered_by_reply(
    c: &MailClient,
    id: String,
    reply: MailReply,
    r: Result<String, MailError>,
)
    requires
        call_ensures(MailClient::delivered, (c, id, reply), r),
    ensures
        reply is Delivered ==> (r matches Ok(i) && i@ == id@),
        reply matches MailReply::Error { message } ==> is_rejected(r, Asked::Deliver, message@),
        !(reply is Delivered) && !(reply is Error) ==> r == Err::<String, MailError>(
            MailError::UnexpectedReply(Asked::Deliver),
        ),
{
}

/// Whether `r` says that the request was refused, and why.
pub open spec fn is_rejected<T>(r: Result<T, MailError>, asked: Asked, why: Seq<char>) -> bool {
    r matches Err(MailError::Rejected { asked: a, message }) && a == asked && message@ == why
}

/// What reading an inbox is answered with decides: the envelopes and the cursor as they are in the
/// reply, the reason if it was refused, and a complaint if the answer is to something else.
pub proof fn lemma_drained_by_reply(
    c: &MailClient,
    reply: MailReply,
    r: Result<(Vec<Envelope>, usize), MailError>,
    paged: Result<(Vec<Envelope>, usize, bool), MailError>,
)
    requires
        call_ensures(MailClient::drained, (c, reply), r),
        call_ensures(MailClient::drained_page, (c, reply), paged),
    ensures
        reply matches MailReply::Drained { envelopes, cursor } ==> (r matches Ok((es, at))
            && same_mail(es@, envelopes@) && at == cursor),
        reply matches MailReply::Error { message } ==> is_rejected(r, Asked::Drain, message@),
        !(reply is Drained) && !(reply is Error) ==> r == Err::<(Vec<Envelope>, usize), MailError>(
            MailError::UnexpectedReply(Asked::Drain),
        ),
        reply matches MailReply::Page { envelopes, cursor, more } ==> (paged matches Ok(
            (es, at, m),
        ) && same_mail(es@, envelopes@) && at == cursor && m == more),
        reply matches MailReply::Error { message } ==> is_rejected(
            paged,
            Asked::DrainPage,
            message@,
        ),
        !(reply is Page) && !(reply is Error) ==> paged == Err::<
            (Vec<Envelope>, usize, bool),
            MailError,
        >(MailError::UnexpectedReply(Asked::DrainPage)),
{
    match reply {
        MailReply::Drained { envelopes, .. } => {
            lemma_same_mail(r->Ok_0.0, envelopes);
        },
        MailReply::Page { envelopes, .. } => {
            lemma_same_mail(paged->Ok_0.0, envelopes);
        },
        _ => {},
    }
}

/// Whether the two are the same mail in the same order.
pub open spec fn same_mail(a: Seq<Envelope>, b: Seq<Envelope>) -> bool {
    &&& a.len() == b.len()
    &&& forall|i: int| 0 <= i < a.len() ==> crate::thread_laws::same_envelope(#[trigger] a[i], b[i])
}

/// Two lists of envelopes have the same view only if they are the same mail in the same order.
pub proof fn lemma_same_mail(a: Vec<Envelope>, b: Vec<Envelope>)
    requires
        a.deep_view() == b.deep_view(),
    ensures
        same_mail(a@, b@),
{
    let x = a.deep_view();
    let y = b.deep_view();
    assert(x.len() == a@.len() && y.len() == b@.len());
    assert forall|i: int| 0 <= i < a@.len() implies crate::thread_laws::same_envelope(
        #[trigger] a@[i],
        b@[i],
    ) by {
        assert(x[i] == a@[i]@);
        assert(y[i] == b@[i]@);
        crate::signing_laws::lemma_same_contents(a@[i].body, b@[i].body);
    }
}

/// What depositing a receipt and acknowledging are answered with decides in the same way.
pub proof fn lemma_counted_by_reply(
    c: &MailClient,
    reply: MailReply,
    deposited: Result<bool, MailError>,
    acked: Result<usize, MailError>,
)
    requires
        call_ensures(MailClient::receipt_deposited, (c, reply), deposited),
        call_ensures(MailClient::acked, (c, reply), acked),
    ensures
        reply matches MailReply::ReceiptAccepted { duplicate } ==> deposited == Ok::<
            bool,
            MailError,
        >(duplicate),
        reply matches MailReply::Error { message } ==> is_rejected(
            deposited,
            Asked::PutReceipt,
            message@,
        ),
        !(reply is ReceiptAccepted) && !(reply is Error) ==> deposited == Err::<bool, MailError>(
            MailError::UnexpectedReply(Asked::PutReceipt),
        ),
        reply matches MailReply::Acked { removed } ==> acked == Ok::<usize, MailError>(removed),
        reply matches MailReply::Error { message } ==> is_rejected(acked, Asked::Ack, message@),
        !(reply is Acked) && !(reply is Error) ==> acked == Err::<usize, MailError>(
            MailError::UnexpectedReply(Asked::Ack),
        ),
{
}

/// The client asks for its own inbox and its own receipts, with the cursor, the limit and the grant
/// that it is given.
pub proof fn lemma_requests_are_about_own(
    c: &MailClient,
    since: usize,
    limit: usize,
    grant: Grant,
    drain: MailRequest,
    page: MailRequest,
    ack: MailRequest,
    collect: MailRequest,
)
    requires
        call_ensures(MailClient::drain_request, (c, since, grant), drain),
        call_ensures(MailClient::drain_page_request, (c, since, limit, grant), page),
        call_ensures(MailClient::ack_request, (c, since, grant), ack),
        call_ensures(MailClient::collect_request, (c, grant), collect),
    ensures
        drain matches MailRequest::Drain { recipient, since: s, grant: g } && recipient@
            == crate::digest::hex_text(c@.node_id) && s == since && g.chain@ == grant.chain@,
        page matches MailRequest::DrainPage { recipient, since: s, limit: l, grant: g }
            && recipient@ == crate::digest::hex_text(c@.node_id) && s == since && l == limit
            && g.chain@ == grant.chain@,
        ack matches MailRequest::Ack { recipient, cursor, grant: g } && recipient@
            == crate::digest::hex_text(c@.node_id) && cursor == since && g.chain@ == grant.chain@,
        collect matches MailRequest::CollectReceipts { sender, grant: g } && sender@
            == crate::digest::hex_text(c@.node_id) && g.chain@ == grant.chain@,
{
}

/// A receipt is deposited for the sender that is named, and says of the message that is named that the
/// client acknowledges it in the given way at the given time, signed by the client.
pub proof fn lemma_receipt_request_says<S: Fn(&[u8]) -> [u8; 64]>(
    c: &MailClient,
    sender: &str,
    id: &str,
    kind: ReceiptKind,
    grant: Grant,
    now: u64,
    sign: &S,
    r: MailRequest,
)
    requires
        call_ensures(
            MailClient::receipt_request::<S>,
            (c, sender, id, kind, grant, now, sign),
            r,
        ),
    ensures
        r matches MailRequest::PutReceipt { for_sender, receipt, grant: g } && for_sender@ == sender@
            && g.chain@ == grant.chain@ && receipt.body.message_id@ == id@ && receipt.body.by@
            == crate::digest::hex_text(c@.node_id) && receipt.body.kind == kind && receipt.body.at
            == now && exists|m: &[u8], s: [u8; 64]|
            m@ == crate::store_laws::signed_receipt(receipt) && s@ == receipt.sig@ && #[trigger]
                call_ensures(*sign, (m,), s),
{
    if let MailRequest::PutReceipt { receipt, .. } = r {
        crate::signing_laws::lemma_receipt_model(receipt);
    }
}

/// Whether `at` says which of the items stay: those at these places, in their order.
pub open spec fn picks(at: Seq<int>, n: int) -> bool {
    &&& forall|i: int| 0 <= i < at.len() ==> 0 <= #[trigger] at[i] < n
    &&& forall|i: int, j: int| 0 <= i < j < at.len() ==> #[trigger] at[i] < #[trigger] at[j]
}

/// What is kept of a list is what stands at some of its places, in their order.
pub proof fn lemma_kept_places<T>(items: Seq<T>, keep: Seq<bool>) -> (at: Seq<int>)
    ensures
        picks(at, items.len() as int),
        crate::client::kept(items, keep).len() == at.len(),
        forall|i: int|
            0 <= i < at.len() ==> crate::client::kept(items, keep)[i] == items[#[trigger] at[i]],
        forall|k: int| 0 <= k < items.len() ==> (keep[k] <==> #[trigger] at.contains(k)),
    decreases items.len(),
{
    if items.len() == 0 {
        Seq::empty()
    } else {
        let front = items.drop_last();
        let n = items.len() - 1;
        let at = lemma_kept_places(front, keep);
        let all = if keep[n] {
            at.push(n)
        } else {
            at
        };
        assert forall|k: int| 0 <= k < items.len() implies (keep[k] <==> #[trigger] all.contains(
            k,
        )) by {
            if k < n {
                if keep[k] {
                    assert(at.contains(k));
                    let i = choose|i: int| 0 <= i < at.len() && at[i] == k;
                    assert(all[i] == k);
                }
                if all.contains(k) {
                    let i = choose|i: int| 0 <= i < all.len() && all[i] == k;
                    assert(at[i] == k);
                    assert(at.contains(k));
                }
            } else {
                if keep[n] {
                    assert(all[at.len() as int] == n);
                }
                if all.contains(n) {
                    let i = choose|i: int| 0 <= i < all.len() && all[i] == n;
                    if i < at.len() {
                        assert(at[i] < n);
                    }
                }
            }
        }
        all
    }
}

/// Whether the check can only find the envelope's signature to hold (`ok`), or only not to. A sender
/// that is no node id never signed.
pub open spec fn is_plain<F: Fn(&NodeId, &[u8], &[u8; 64]) -> bool>(
    check: F,
    e: Envelope,
    ok: bool,
) -> bool {
    match crate::envelope::node_id_of(e.body.from@) {
        Ok(k) => crate::signing_laws::only_answers(
            check,
            k,
            crate::store_laws::signed(e),
            e.sig@,
            ok,
        ),
        Err(_) => !ok,
    }
}

/// Of the envelopes that came back those stay, in their order and as they are, whose signatures hold,
/// and no others do.
pub proof fn lemma_only_verified_stay<F: Fn(&NodeId, &[u8], &[u8; 64]) -> bool>(
    envelopes: Vec<Envelope>,
    check: &F,
    r: Vec<Envelope>,
)
    requires
        call_ensures(crate::client::verified_envelopes::<F>, (envelopes, check), r),
    ensures
        exists|at: Seq<int>| #[trigger]
            picks(at, envelopes@.len() as int) && at.len() == r@.len() && (forall|i: int|
                0 <= i < r@.len() ==> crate::thread_laws::same_envelope(
                    #[trigger] r@[i],
                    envelopes@[at[i]],
                )) && (forall|k: int|
                0 <= k < envelopes@.len() ==> (is_plain(*check, #[trigger] envelopes@[k], true)
                    ==> at.contains(k)) && (is_plain(*check, envelopes@[k], false) ==> !at.contains(
                    k,
                ))),
{
    let all = envelopes.deep_view();
    let out = r.deep_view();
    let oks = choose|oks: Seq<bool>|
        oks.len() == all.len() && out == #[trigger] crate::client::kept(all, oks) && (forall|i: int|
            0 <= i < all.len() ==> crate::client::envelope_holds(
                *check,
                #[trigger] all[i],
                oks[i],
            ));
    let at = lemma_kept_places(all, oks);
    assert(all.len() == envelopes@.len() && out.len() == r@.len());
    assert forall|i: int| 0 <= i < r@.len() implies crate::thread_laws::same_envelope(
        #[trigger] r@[i],
        envelopes@[at[i]],
    ) by {
        assert(out[i] == r@[i]@);
        assert(out[i] == all[at[i]]);
        assert(all[at[i]] == envelopes@[at[i]]@);
        crate::signing_laws::lemma_same_contents(r@[i].body, envelopes@[at[i]].body);
    }
    assert forall|k: int| 0 <= k < envelopes@.len() implies (is_plain(
        *check,
        #[trigger] envelopes@[k],
        true,
    ) ==> at.contains(k)) && (is_plain(*check, envelopes@[k], false) ==> !at.contains(k)) by {
        assert(all[k] == envelopes@[k]@);
        assert(crate::client::envelope_holds(*check, all[k], oks[k]));
        crate::signing_laws::lemma_bytes_of_fields(envelopes@[k].body);
        assert(oks[k] <==> at.contains(k));
    }
}

/// Whether the check can only find the receipt's signature to hold (`ok`), or only not to.
pub open spec fn is_plain_receipt<F: Fn(&NodeId, &[u8], &[u8; 64]) -> bool>(
    check: F,
    m: Receipt,
    ok: bool,
) -> bool {
    match crate::envelope::node_id_of(m.body.by@) {
        Ok(k) => crate::signing_laws::only_answers(
            check,
            k,
            crate::store_laws::signed_receipt(m),
            m.sig@,
            ok,
        ),
        Err(_) => !ok,
    }
}

/// Of the receipts that came back those stay, in their order and as they are, whose signatures hold,
/// and no others do. A refusal is passed on, and any other reply is a complaint.
pub proof fn lemma_only_verified_receipts_stay<F: Fn(&NodeId, &[u8], &[u8; 64]) -> bool>(
    c: &MailClient,
    reply: MailReply,
    check: &F,
    r: Result<Vec<Receipt>, MailError>,
)
    requires
        call_ensures(MailClient::collected::<F>, (c, reply, check), r),
    ensures
        reply matches MailReply::Error { message } ==> is_rejected(
            r,
            Asked::CollectReceipts,
            message@,
        ),
        !(reply is Receipts) && !(reply is Error) ==> r == Err::<Vec<Receipt>, MailError>(
            MailError::UnexpectedReply(Asked::CollectReceipts),
        ),
        reply matches MailReply::Receipts { receipts } ==> (r matches Ok(kept) && exists|
            at: Seq<int>,
        | #[trigger]
            picks(at, receipts@.len() as int) && at.len() == kept@.len() && (forall|i: int|
                0 <= i < kept@.len() ==> (#[trigger] kept@[i])@ == receipts@[at[i]]@) && (forall|
                k: int,
            |
                0 <= k < receipts@.len() ==> (is_plain_receipt(
                    *check,
                    #[trigger] receipts@[k],
                    true,
                ) ==> at.contains(k)) && (is_plain_receipt(*check, receipts@[k], false)
                    ==> !at.contains(k)))),
{
    if let MailReply::Receipts { receipts } = reply {
        let all = receipts.deep_view();
        let kept = r->Ok_0;
        let out = kept.deep_view();
        let oks = choose|oks: Seq<bool>|
            oks.len() == all.len() && out == #[trigger] crate::client::kept(all, oks) && (forall|
                i: int,
            |
                0 <= i < all.len() ==> crate::client::receipt_holds(
                    *check,
                    #[trigger] all[i],
                    oks[i],
                ));
        let at = lemma_kept_places(all, oks);
        assert(all.len() == receipts@.len() && out.len() == kept@.len());
        assert forall|i: int| 0 <= i < kept@.len() implies (#[trigger] kept@[i])@
            == receipts@[at[i]]@ by {
            assert(out[i] == kept@[i]@);
            assert(out[i] == all[at[i]]);
            assert(all[at[i]] == receipts@[at[i]]@);
        }
        assert forall|k: int| 0 <= k < receipts@.len() implies (is_plain_receipt(
            *check,
            #[trigger] receipts@[k],
            true,
        ) ==> at.contains(k)) && (is_plain_receipt(*check, receipts@[k], false) ==> !at.contains(
            k,
        )) by {
            assert(all[k] == receipts@[k]@);
            assert(crate::client::receipt_holds(*check, all[k], oks[k]));
            crate::signing_laws::lemma_receipt_model(receipts@[k]);
            assert(oks[k] <==> at.contains(k));
        }
    }
}

/// The blob of the body is fetched by the CID that the envelope names, and none is if it names none.
pub proof fn lemma_body_blob_is_named(e: &Envelope, r: Option<&String>)
    requires
        call_ensures(body_blob, (e,), r),
    ensures
        e.body.body_cid@.len() == 0 ==> r is None,
        e.body.body_cid@.len() > 0 ==> (r matches Some(cid) && cid@ == e.body.body_cid@),
{
}

/// The blob of an attachment is fetched by the CID that the envelope names at its place. There has to
/// be one there, and it must not be empty.
pub proof fn lemma_attachment_blob_is_named(
    e: &Envelope,
    index: usize,
    r: Result<&String, MailError>,
)
    requires
        call_ensures(attachment_blob, (e, index), r),
    ensures
        index >= e.body.attachment_cids@.len() ==> r == Err::<&String, MailError>(
            MailError::NoSuchAttachment(index),
        ),
        index < e.body.attachment_cids@.len() && e.body.attachment_cids@[index as int]@.len() == 0
            ==> r == Err::<&String, MailError>(MailError::AttachmentWithoutCid(index)),
        index < e.body.attachment_cids@.len() && e.body.attachment_cids@[index as int]@.len() > 0
            ==> (r matches Ok(cid) && cid@ == e.body.attachment_cids@[index as int]@),
{
    let v = e.body.attachment_cids.deep_view();
    assert(e@.body.attachment_cids == v);
    assert(v.len() == e.body.attachment_cids@.len());
    if index < v.len() {
        assert(v[index as int] == e.body.attachment_cids@[index as int]@);
    }
}

/// Opening a blob reads the sealed body in it, opens that with the client's secret, and takes what comes
/// out apart into subject and body where it holds both. What fails first is reported.
pub proof fn lemma_content_is_opened(
    c: &MailClient,
    blob: &[u8],
    secret: &[u8; 32],
    sealed: Result<SealedBody, MailError>,
    plaintext: Result<Vec<u8>, MailError>,
    bytes: &[u8],
    content: Option<BodyContent>,
    attached: Result<Attachment, MailError>,
    r: Result<(Vec<u8>, Option<String>), MailError>,
    a: Result<Attachment, MailError>,
)
    requires
        secret@ == c@.secret,
        call_ensures(decode_sealed, (blob,), sealed),
        sealed matches Ok(x) ==> call_ensures(open, (secret, &x), plaintext),
        plaintext matches Ok(p) ==> bytes@ == p@,
        call_ensures(BodyContent::try_decode, (bytes,), content),
        call_ensures(Attachment::decode, (bytes,), attached),
        call_ensures(MailClient::open_content, (c, blob), r),
        call_ensures(MailClient::open_attachment, (c, blob), a),
    ensures
        sealed matches Err(e) ==> r == Err::<(Vec<u8>, Option<String>), MailError>(e) && a == Err::<
            Attachment,
            MailError,
        >(e),
        sealed is Ok ==> (plaintext matches Err(e) ==> r == Err::<
            (Vec<u8>, Option<String>),
            MailError,
        >(e) && a == Err::<Attachment, MailError>(e)),
        sealed is Ok && plaintext is Ok ==> match content {
            Some(k) => r matches Ok((body, Some(subject))) && body@ == k.body@ && subject@
                == k.subject@,
            None => r matches Ok((body, None)) && body@ == bytes@,
        },
        sealed is Ok && plaintext is Ok ==> match attached {
            Ok(x) => a matches Ok(y) && x.filename@ == y.filename@ && x.content_type@
                == y.content_type@ && x.bytes@ == y.bytes@,
            Err(e) => a == Err::<Attachment, MailError>(e),
        },
{
}

/// An envelope that names no body has an empty one, whatever the blob. Any other has what opening the
/// blob gives, and cannot be opened where the blob cannot.
pub proof fn lemma_opening_follows_blob(
    c: &MailClient,
    e: &Envelope,
    blob: &[u8],
    content: Result<(Vec<u8>, Option<String>), MailError>,
    body: Result<Vec<u8>, MailError>,
    message: Result<Message, MailError>,
)
    requires
        call_ensures(MailClient::open_content, (c, blob), content),
        call_ensures(MailClient::open_body, (c, e, blob), body),
        call_ensures(MailClient::open_message, (c, e, blob), message),
    ensures
        e.body.body_cid@.len() == 0 ==> (body matches Ok(b) && b@.len() == 0),
        e.body.body_cid@.len() == 0 ==> (message matches Ok(m) && m.body@.len() == 0
            && m.sealed_subject is None),
        e.body.body_cid@.len() > 0 ==> match content {
            Ok((b, s)) => {
                &&& body matches Ok(x) && x@ == b@
                &&& message matches Ok(m) && m.body@ == b@ && crate::client::text_view(
                    m.sealed_subject,
                ) == crate::client::text_view(s)
            },
            Err(why) => body == Err::<Vec<u8>, MailError>(why) && message == Err::<
                Message,
                MailError,
            >(why),
        },
        message matches Ok(m) ==> crate::thread_laws::same_envelope(m.envelope, *e),
{
    if let Ok(m) = message {
        crate::signing_laws::lemma_same_contents(m.envelope.body, e.body);
    }
}

/// A message that is put together always has its envelope. Its body and its sealed subject are what
/// opening gives, and nothing where the blob is missing or cannot be opened.
pub proof fn lemma_composing_never_fails(
    c: &MailClient,
    e: Envelope,
    blob: Option<Vec<u8>>,
    bytes: &[u8],
    opened: Result<Message, MailError>,
    r: Message,
)
    requires
        call_ensures(MailClient::compose_message, (c, e, blob), r),
        blob matches Some(b) ==> bytes@ == b@,
        call_ensures(MailClient::open_message, (c, &e, bytes), opened),
    ensures
        crate::thread_laws::same_envelope(r.envelope, e),
        blob is None || opened is Err ==> r.body@.len() == 0 && r.sealed_subject is None,
        blob is Some ==> (opened matches Ok(m) ==> r.body@ == m.body@ && crate::client::text_view(
            r.sealed_subject,
        ) == crate::client::text_view(m.sealed_subject)),
{
    crate::signing_laws::lemma_same_contents(r.envelope.body, e.body);
}

/// A message has the subject that was sealed in it, and else the one in clear; it has the id of its
/// envelope; and its body reads as the text it encodes.
pub proof fn lemma_message_tells(m: &Message, subject: String, id: String, text: String)
    requires
        call_ensures(Message::subject, (m,), subject),
        call_ensures(Message::id, (m,), id),
        call_ensures(Message::body_text, (m,), text),
    ensures
        m.sealed_subject matches Some(s) ==> subject@ == s@,
        m.sealed_subject is None ==> subject@ == m.envelope.body.subject@,
        id@ == crate::thread_laws::id_of(m.envelope),
        vstd::utf8::valid_utf8(m.body@) ==> vstd::utf8::encode_utf8(text@) == m.body@,
{
    crate::thread_laws::lemma_id_of(m.envelope);
    if vstd::utf8::valid_utf8(m.body@) {
        vstd::utf8::decode_utf8_encode_utf8(m.body@);
    }
}

/// What is sent where nothing is said is empty, in clear, with no postage, and straight to the
/// recipient.
pub proof fn lemma_default_options(o: SendOptions, nothing: Grant)
    requires
        call_ensures(SendOptions::default, (), o),
        call_ensures(Grant::none, (), nothing),
    ensures
        o.to@.len() == 0,
        o.subject@.len() == 0,
        o.body@.len() == 0,
        o.attachments@.len() == 0,
        o.in_reply_to@.len() == 0,
        !o.seal_subject,
        o.postage_receipt@.len() == 0,
        o.mailbox is None,
        o.grant.chain@ == nothing.chain@,
        nothing.chain@ == crate::wire::le64(0),
{
    assert(o.attachments.deep_view().len() == o.attachments@.len());
}

/// A client has the keys it is given, waits thirty seconds and has the usual limits unless it is told
/// otherwise, and what it is told of one does not change the other.
pub proof fn lemma_client_is_made_of(
    keys: Keys,
    usual: Limits,
    ms: u64,
    limits: Limits,
    c: MailClient,
    slow: MailClient,
    wide: MailClient,
    waits: u64,
    name: String,
)
    requires
        call_ensures(Limits::default, (), usual),
        call_ensures(MailClient::new, (keys,), c),
        call_ensures(MailClient::with_timeout, (c, ms), slow),
        call_ensures(MailClient::with_limits, (slow, limits), wide),
        call_ensures(MailClient::timeout_ms, (&wide,), waits),
        call_ensures(MailClient::node_id_hex, (&wide,), name),
    ensures
        c@.node_id == keys.node_id@ && c@.secret == keys.secret@,
        c@.timeout_ms == 30000 && c@.limits == usual,
        slow@.timeout_ms == ms && slow@.limits == usual,
        wide@.timeout_ms == ms && wide@.limits == limits,
        wide@.node_id == keys.node_id@ && wide@.secret == keys.secret@,
        waits == ms,
        name@ == crate::digest::hex_text(keys.node_id@),
{
}

} // verus!
