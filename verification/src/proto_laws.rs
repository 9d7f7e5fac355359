//! What requests and replies are on the wire, said of calls and what they give.

use crate::envelope::Envelope;
use crate::error::{Format, MailError};
use crate::proto::{Grant, MailReply, MailRequest};
use crate::receipt::Receipt;
use crate::wire::Wire;
use vstd::prelude::*;

verus! {

/// A number as it is written: eight bytes, the lowest first.
pub open spec fn number_bytes(n: usize) -> Seq<u8> {
    crate::wire::le64(n as u64)
}

/// A request is written as the number of its kind in four bytes, what it asks, and its grant.
pub proof fn lemma_request_form(
    q: &MailRequest,
    b: Vec<u8>,
    tried: Result<Vec<u8>, MailError>,
    g: &Grant,
)
    requires
        call_ensures(MailRequest::encode, (q,), b),
        call_ensures(MailRequest::try_encode, (q,), tried),
        call_ensures(MailRequest::grant, (q,), g),
    ensures
        tried matches Ok(t) && t@ == b@,
        g.chain@ == crate::handling_laws::shown(*q),
        b@ == (match *q {
            MailRequest::Deliver { envelope, .. } => crate::wire::le32(0)
                + crate::signing_laws::fields_in_a_row(envelope.body) + crate::wire::le64(64)
                + envelope.sig@,
            MailRequest::Drain { recipient, since, .. } => crate::wire::le32(1)
                + crate::wire::text_bytes(recipient@) + number_bytes(since),
            MailRequest::Ack { recipient, cursor, .. } => crate::wire::le32(2)
                + crate::wire::text_bytes(recipient@) + number_bytes(cursor),
            MailRequest::DrainPage { recipient, since, limit, .. } => crate::wire::le32(3)
                + crate::wire::text_bytes(recipient@) + number_bytes(since) + number_bytes(limit),
            MailRequest::PutReceipt { for_sender, receipt, .. } => crate::wire::le32(4)
                + crate::wire::text_bytes(for_sender@) + receipt_bytes(receipt),
            MailRequest::CollectReceipts { sender, .. } => crate::wire::le32(5)
                + crate::wire::text_bytes(sender@),
        }) + crate::handling_laws::shown(*q),
{
    match *q {
        MailRequest::Deliver { envelope, .. } => {
            lemma_envelope_bytes(envelope);
        },
        MailRequest::PutReceipt { receipt, .. } => {
            lemma_receipt_bytes(receipt);
        },
        _ => {},
    }
}

/// A receipt as it is written.
pub open spec fn receipt_bytes(m: Receipt) -> Seq<u8> {
    crate::wire::text_bytes(m.body.message_id@) + crate::wire::text_bytes(m.body.by@)
        + crate::wire::le32(
        if m.body.kind == crate::receipt::ReceiptKind::Delivered {
            0
        } else {
            1
        },
    ) + crate::wire::le64(m.body.at) + crate::wire::le64(64) + m.sig@
}

proof fn lemma_receipt_bytes(m: Receipt)
    ensures
        Receipt::wire(m@) == receipt_bytes(m),
{
    crate::wire::lemma_bytes_of_bytes(m.sig@);
    assert(Receipt::wire(m@) =~= receipt_bytes(m));
}

/// An envelope as it is written.
pub open spec fn envelope_bytes(e: Envelope) -> Seq<u8> {
    crate::signing_laws::fields_in_a_row(e.body) + crate::wire::le64(64) + e.sig@
}

proof fn lemma_envelope_bytes(e: Envelope)
    ensures
        Envelope::wire(e@) == envelope_bytes(e),
{
    crate::signing_laws::lemma_bytes_of_fields(e.body);
    crate::wire::lemma_bytes_of_bytes(e.sig@);
    assert(Envelope::wire(e@) =~= envelope_bytes(e));
}

/// Whether two requests ask the same and show the same grant.
pub open spec fn same_request(a: MailRequest, b: MailRequest) -> bool {
    &&& crate::handling_laws::shown(a) == crate::handling_laws::shown(b)
    &&& match (a, b) {
        (
            MailRequest::Deliver { envelope: x, .. },
            MailRequest::Deliver { envelope: y, .. },
        ) => crate::thread_laws::same_envelope(x, y),
        (
            MailRequest::Drain { recipient: x, since: m, .. },
            MailRequest::Drain { recipient: y, since: n, .. },
        ) => x@ == y@ && m == n,
        (
            MailRequest::Ack { recipient: x, cursor: m, .. },
            MailRequest::Ack { recipient: y, cursor: n, .. },
        ) => x@ == y@ && m == n,
        (
            MailRequest::DrainPage { recipient: x, since: m, limit: k, .. },
            MailRequest::DrainPage { recipient: y, since: n, limit: l, .. },
        ) => x@ == y@ && m == n && k == l,
        (
            MailRequest::PutReceipt { for_sender: x, receipt: p, .. },
            MailRequest::PutReceipt { for_sender: y, receipt: q, .. },
        ) => x@ == y@ && crate::signing_laws::same_receipt_contents(p.body, q.body) && p.sig@
            == q.sig@,
        (
            MailRequest::CollectReceipts { sender: x, .. },
            MailRequest::CollectReceipts { sender: y, .. },
        ) => x@ == y@,
        _ => false,
    }
}

/// A request whose grant has the number of its links in front reads back as what was asked.
#[verifier::rlimit(30)]
pub proof fn lemma_request_reads_back(
    q: &MailRequest,
    b: Vec<u8>,
    bytes: &[u8],
    r: Result<MailRequest, MailError>,
)
    requires
        call_ensures(MailRequest::encode, (q,), b),
        bytes@ == b@,
        crate::handling_laws::shown(*q).len() >= 8,
        call_ensures(MailRequest::decode, (bytes,), r),
    ensures
        r matches Ok(back) && same_request(back, *q),
{
    assert(crate::proto::request_grant(q@) == crate::handling_laws::shown(*q));
    crate::proto::lemma_request_round_trip(q@);
    if let Ok(back) = r {
        assert(back@ == q@);
        match (back, *q) {
            (
                MailRequest::Deliver { envelope: x, .. },
                MailRequest::Deliver { envelope: y, .. },
            ) => {
                crate::signing_laws::lemma_same_contents(x.body, y.body);
            },
            _ => {},
        }
    }
}

/// What reads as a request is just what writing that request gives.
pub proof fn lemma_read_request_was_written(
    bytes: &[u8],
    r: Result<MailRequest, MailError>,
    b: Vec<u8>,
)
    requires
        call_ensures(MailRequest::decode, (bytes,), r),
        r is Ok,
        call_ensures(MailRequest::encode, (&r->Ok_0,), b),
    ensures
        b@ == bytes@,
{
    lemma_request_wrote(bytes@, r->Ok_0@);
}

proof fn lemma_three(a: Seq<u8>, b: Seq<u8>, c: Seq<u8>)
    ensures
        a + (b + c) == a + b + c,
{
    assert(a + (b + c) =~= a + b + c);
}

proof fn lemma_request_wrote(b: Seq<u8>, m: crate::proto::RequestModel)
    requires
        crate::proto::parse_request(b) == Some(m),
    ensures
        b == crate::proto::request_bytes(m),
{
    u32::lemma_wrote(b);
    let (tag, after) = u32::parse(b)->0;
    assert(b == crate::wire::le32(tag) + after);
    assert(crate::proto::parse_request_fields(tag, after) == Some(m));
    let grant = crate::proto::request_grant(m);
    let head = crate::proto::request_head(m);
    match m {
        crate::proto::RequestModel::Deliver { envelope, .. } => {
            Envelope::lemma_wrote(after);
            let w = Envelope::wire(envelope);
            assert(after == w + grant);
            assert(head == crate::wire::le32(0) + w);
            lemma_three(crate::wire::le32(0), w, grant);
        },
        crate::proto::RequestModel::Drain { recipient, since, .. } => {
            <(String, usize)>::lemma_wrote(after);
            let w = <(String, usize)>::wire((recipient, since));
            assert(after == w + grant);
            assert(head == crate::wire::le32(1) + w);
            lemma_three(crate::wire::le32(1), w, grant);
        },
        crate::proto::RequestModel::Ack { recipient, cursor, .. } => {
            <(String, usize)>::lemma_wrote(after);
            let w = <(String, usize)>::wire((recipient, cursor));
            assert(after == w + grant);
            assert(head == crate::wire::le32(2) + w);
            lemma_three(crate::wire::le32(2), w, grant);
        },
        crate::proto::RequestModel::DrainPage { recipient, since, limit, .. } => {
            <(String, (usize, usize))>::lemma_wrote(after);
            let w = <(String, (usize, usize))>::wire((recipient, (since, limit)));
            assert(after == w + grant);
            assert(head == crate::wire::le32(3) + w);
            lemma_three(crate::wire::le32(3), w, grant);
        },
        crate::proto::RequestModel::PutReceipt { for_sender, receipt, .. } => {
            <(String, Receipt)>::lemma_wrote(after);
            let w = <(String, Receipt)>::wire((for_sender, receipt));
            assert(after == w + grant);
            assert(head == crate::wire::le32(4) + w);
            lemma_three(crate::wire::le32(4), w, grant);
        },
        crate::proto::RequestModel::CollectReceipts { sender, .. } => {
            String::lemma_wrote(after);
            let w = crate::wire::text_bytes(sender);
            assert(after == w + grant);
            assert(head == crate::wire::le32(5) + w);
            lemma_three(crate::wire::le32(5), w, grant);
        },
    }
}

/// What holds no request is malformed: too few bytes for the number of a kind, a number of no kind, or
/// a grant that is too short to have the number of its links in front.
pub proof fn lemma_no_request_is_malformed(
    bytes: &[u8],
    tag: u32,
    rest: Seq<u8>,
    r: Result<MailRequest, MailError>,
)
    requires
        bytes@.len() < 4 || (bytes@ == crate::wire::le32(tag) + rest && tag > 5),
        call_ensures(MailRequest::decode, (bytes,), r),
    ensures
        r == Err::<MailRequest, MailError>(MailError::Malformed(Format::MailRequest)),
{
    if bytes@.len() >= 4 {
        u32::lemma_reads_back(tag, rest);
    }
}

/// A request that is read always has a grant with the number of its links in front, and if its grant
/// is looked into, one that is readable.
pub proof fn lemma_read_request_has_grant<R: Fn(&Grant) -> bool>(
    bytes: &[u8],
    readable: &R,
    plain: Result<MailRequest, MailError>,
    r: Result<MailRequest, MailError>,
)
    requires
        call_ensures(MailRequest::decode, (bytes,), plain),
        call_ensures(MailRequest::decode_readable::<R>, (bytes, readable), r),
    ensures
        plain matches Ok(q) ==> crate::handling_laws::shown(q).len() >= 8,
        plain matches Err(e) ==> r == Err::<MailRequest, MailError>(e),
        plain matches Ok(q) ==> {
            &&& (forall|g: &Grant, ok: bool|
                g.chain@ == crate::handling_laws::shown(q) && #[trigger] call_ensures(
                    *readable,
                    (g,),
                    ok,
                ) ==> ok) ==> (r matches Ok(back) && back@ == q@)
            &&& (forall|g: &Grant, ok: bool|
                g.chain@ == crate::handling_laws::shown(q) && #[trigger] call_ensures(
                    *readable,
                    (g,),
                    ok,
                ) ==> !ok) ==> r == Err::<MailRequest, MailError>(
                MailError::Malformed(Format::MailRequest),
            )
        },
{
    if let Ok(q) = plain {
        assert(crate::proto::request_grant(q@) == crate::handling_laws::shown(q));
    }
}

/// The envelopes one after the other.
pub open spec fn envelopes_in_a_row(items: Seq<Envelope>) -> Seq<u8>
    decreases items.len(),
{
    if items.len() == 0 {
        Seq::empty()
    } else {
        envelope_bytes(items[0]) + envelopes_in_a_row(items.skip(1))
    }
}

proof fn lemma_envelopes_in_a_row(
    items: Seq<Envelope>,
    views: Seq<crate::envelope::EnvelopeModel>,
)
    requires
        items.len() == views.len(),
        forall|i: int| 0 <= i < items.len() ==> (#[trigger] items[i])@ == views[i],
    ensures
        crate::wire::items_bytes::<Envelope>(views) == envelopes_in_a_row(items),
    decreases items.len(),
{
    if items.len() > 0 {
        let t = items.skip(1);
        assert forall|i: int| 0 <= i < t.len() implies (#[trigger] t[i])@ == views.skip(1)[i] by {
            assert(t[i] == items[i + 1]);
        }
        lemma_envelopes_in_a_row(t, views.skip(1));
        lemma_envelope_bytes(items[0]);
        assert(items[0]@ == views[0]);
    }
}

/// The receipts one after the other.
pub open spec fn receipts_in_a_row(items: Seq<Receipt>) -> Seq<u8>
    decreases items.len(),
{
    if items.len() == 0 {
        Seq::empty()
    } else {
        receipt_bytes(items[0]) + receipts_in_a_row(items.skip(1))
    }
}

proof fn lemma_receipts_in_a_row(items: Seq<Receipt>, views: Seq<crate::receipt::ReceiptModel>)
    requires
        items.len() == views.len(),
        forall|i: int| 0 <= i < items.len() ==> (#[trigger] items[i])@ == views[i],
    ensures
        crate::wire::items_bytes::<Receipt>(views) == receipts_in_a_row(items),
    decreases items.len(),
{
    if items.len() > 0 {
        let t = items.skip(1);
        assert forall|i: int| 0 <= i < t.len() implies (#[trigger] t[i])@ == views.skip(1)[i] by {
            assert(t[i] == items[i + 1]);
        }
        lemma_receipts_in_a_row(t, views.skip(1));
        lemma_receipt_bytes(items[0]);
        assert(items[0]@ == views[0]);
    }
}

/// A yes or a no as it is written.
pub open spec fn answer_bytes(yes: bool) -> Seq<u8> {
    seq![
        if yes {
            1u8
        } else {
            0u8
        },
    ]
}

/// A reply is written as the number of its kind in four bytes and what it says; a list has the number
/// of its items in front.
pub proof fn lemma_reply_form(m: &MailReply, b: Vec<u8>, tried: Result<Vec<u8>, MailError>)
    requires
        call_ensures(MailReply::encode, (m,), b),
        call_ensures(MailReply::try_encode, (m,), tried),
    ensures
        tried matches Ok(t) && t@ == b@,
        b@ == (match *m {
            MailReply::Delivered { duplicate } => crate::wire::le32(0) + answer_bytes(duplicate),
            MailReply::Drained { envelopes, cursor } => crate::wire::le32(1) + number_bytes(
                envelopes@.len() as usize,
            ) + envelopes_in_a_row(envelopes@) + number_bytes(cursor),
            MailReply::Page { envelopes, cursor, more } => crate::wire::le32(2) + number_bytes(
                envelopes@.len() as usize,
            ) + envelopes_in_a_row(envelopes@) + number_bytes(cursor) + answer_bytes(more),
            MailReply::Acked { removed } => crate::wire::le32(3) + number_bytes(removed),
            MailReply::ReceiptAccepted { duplicate } => crate::wire::le32(4) + answer_bytes(
                duplicate,
            ),
            MailReply::Receipts { receipts } => crate::wire::le32(5) + number_bytes(
                receipts@.len() as usize,
            ) + receipts_in_a_row(receipts@),
            MailReply::Error { message } => crate::wire::le32(6) + crate::wire::text_bytes(
                message@,
            ),
        }),
{
    match *m {
        MailReply::Drained { envelopes, cursor } => {
            lemma_envelopes_in_a_row(envelopes@, envelopes.deep_view());
            assert(envelopes.len() == envelopes@.len());
        },
        MailReply::Page { envelopes, cursor, more } => {
            lemma_envelopes_in_a_row(envelopes@, envelopes.deep_view());
            assert(envelopes.len() == envelopes@.len());
        },
        MailReply::Receipts { receipts } => {
            lemma_receipts_in_a_row(receipts@, receipts.deep_view());
            assert(receipts.len() == receipts@.len());
        },
        _ => {},
    }
}

/// Whether two replies say the same.
pub open spec fn same_reply(a: MailReply, b: MailReply) -> bool {
    match (a, b) {
        (
            MailReply::Drained { envelopes: x, cursor: m },
            MailReply::Drained { envelopes: y, cursor: n },
        ) => crate::client_laws::same_mail(x@, y@) && m == n,
        (
            MailReply::Page { envelopes: x, cursor: m, more: p },
            MailReply::Page { envelopes: y, cursor: n, more: q },
        ) => crate::client_laws::same_mail(x@, y@) && m == n && p == q,
        (MailReply::Receipts { receipts: x }, MailReply::Receipts { receipts: y }) => {
            &&& x@.len() == y@.len()
            &&& forall|i: int|
                0 <= i < x@.len() ==> crate::signing_laws::same_receipt_contents(
                    (#[trigger] x@[i]).body,
                    y@[i].body,
                ) && x@[i].sig@ == y@[i].sig@
        },
        (MailReply::Error { message: x }, MailReply::Error { message: y }) => x@ == y@,
        _ => a == b,
    }
}

/// A reply reads back from its bytes as what was said, whatever follows them, and from nothing less
/// than all of them.
pub proof fn lemma_reply_reads_back(
    m: &MailReply,
    b: Vec<u8>,
    bytes: &[u8],
    r: Result<MailReply, MailError>,
)
    requires
        call_ensures(MailReply::encode, (m,), b),
        call_ensures(MailReply::decode, (bytes,), r),
    ensures
        b@.is_prefix_of(bytes@) ==> (r matches Ok(back) && same_reply(back, *m)),
        bytes@.is_prefix_of(b@) && bytes@ != b@ ==> r == Err::<MailReply, MailError>(
            MailError::Malformed(Format::MailReply),
        ),
        r matches Ok(back) && back == *m ==> b@.is_prefix_of(bytes@),
{
    crate::signing_laws::lemma_reads_exactly::<MailReply>(m@, b@, bytes@);
    if b@.is_prefix_of(bytes@) {
        let back = r->Ok_0;
        assert(back@ == m@);
        match (back, *m) {
            (MailReply::Drained { envelopes: x, .. }, MailReply::Drained { envelopes: y, .. }) => {
                crate::client_laws::lemma_same_mail(x, y);
            },
            (MailReply::Page { envelopes: x, .. }, MailReply::Page { envelopes: y, .. }) => {
                crate::client_laws::lemma_same_mail(x, y);
            },
            (MailReply::Receipts { receipts: x }, MailReply::Receipts { receipts: y }) => {
                let p = x.deep_view();
                let q = y.deep_view();
                assert(p == q);
                assert(p.len() == x@.len() && q.len() == y@.len());
                assert forall|i: int|
                    0 <= i < x@.len() implies crate::signing_laws::same_receipt_contents(
                    (#[trigger] x@[i]).body,
                    y@[i].body,
                ) && x@[i].sig@ == y@[i].sig@ by {
                    assert(p[i] == x@[i]@);
                    assert(q[i] == y@[i]@);
                }
            },
            _ => {},
        }
    }
}

} // verus!
