//! What the limits let through, said of calls and what they give.

use crate::envelope::Envelope;
use crate::error::{MailError, Measured};
use crate::limits::Limits;
use vstd::prelude::*;

verus! {

/// How many bytes the text takes.
pub open spec fn size(s: String) -> nat {
    vstd::utf8::encode_utf8(s@).len()
}

/// Whether the text at `i` is the first that takes more bytes than `limit`.
pub open spec fn is_first_over(texts: Seq<String>, i: int, limit: usize) -> bool {
    &&& 0 <= i < texts.len()
    &&& size(texts[i]) > limit
    &&& forall|j: int| 0 <= j < i ==> size(#[trigger] texts[j]) <= limit
}

/// Whether each of the texts takes at most `limit` bytes.
pub open spec fn none_over(texts: Seq<String>, limit: usize) -> bool {
    forall|j: int| 0 <= j < texts.len() ==> size(#[trigger] texts[j]) <= limit
}

proof fn lemma_first_over(texts: Vec<String>, from: int, limit: usize)
    requires
        0 <= from <= texts@.len(),
        forall|j: int| 0 <= j < from ==> size(#[trigger] texts@[j]) <= limit,
    ensures
        match crate::limits::first_over(texts.deep_view(), from, limit) {
            Some(e) => exists|i: int| #[trigger]
                is_first_over(texts@, i, limit) && i <= usize::MAX && e == (MailError::TooLarge {
                    what: Measured::AttachmentCid(i as usize),
                    size: size(texts@[i]) as usize,
                    limit,
                }),
            None => none_over(texts@, limit),
        },
    decreases texts@.len() - from,
{
    if from < texts@.len() {
        assert(texts.deep_view()[from] == texts@[from]@);
        if size(texts@[from]) <= limit {
            lemma_first_over(texts, from + 1, limit);
        } else {
            assert(is_first_over(texts@, from, limit));
            assert(texts.len() == texts@.len());
        }
    }
}

/// An envelope is let through exactly if its subject, the CID of its body, the message it replies to,
/// its postage receipt and the CID of each attachment take no more bytes than each may, there are not
/// too many attachments, and all of it takes no more bytes than an envelope may.
pub proof fn lemma_let_through_if_within(
    l: &Limits,
    e: &Envelope,
    encoded: Vec<u8>,
    r: Result<(), MailError>,
)
    requires
        call_ensures(Limits::check_envelope, (l, e), r),
        call_ensures(Envelope::encode, (e,), encoded),
    ensures
        r is Ok <==> {
            &&& size(e.body.subject) <= l.max_subject_bytes
            &&& size(e.body.body_cid) <= l.max_cid_bytes
            &&& size(e.body.in_reply_to) <= l.max_cid_bytes
            &&& size(e.body.postage_receipt) <= l.max_postage_bytes
            &&& e.body.attachment_cids@.len() <= l.max_attachments
            &&& none_over(e.body.attachment_cids@, l.max_cid_bytes)
            &&& encoded@.len() <= l.max_envelope_bytes
        },
{
    assert(encoded.len() == encoded@.len());
    assert(e@.body.attachment_cids == e.body.attachment_cids.deep_view());
    lemma_first_over(e.body.attachment_cids, 0, l.max_cid_bytes);
    if none_over(e.body.attachment_cids@, l.max_cid_bytes) {
        assert forall|i: int| !is_first_over(e.body.attachment_cids@, i, l.max_cid_bytes) by {}
    }
}

/// What is exceeded first is reported, with its size and its limit: the subject, the CID of the body,
/// the message replied to, the postage receipt, the number of attachments, the first CID that is too
/// long, and the whole.
pub proof fn lemma_first_excess_is_reported(
    l: &Limits,
    e: &Envelope,
    encoded: Vec<u8>,
    i: int,
    r: Result<(), MailError>,
)
    requires
        call_ensures(Limits::check_envelope, (l, e), r),
        call_ensures(Envelope::encode, (e,), encoded),
    ensures
        ({
            let b = e.body;
            let subject = size(b.subject) <= l.max_subject_bytes;
            let body = subject && size(b.body_cid) <= l.max_cid_bytes;
            let reply = body && size(b.in_reply_to) <= l.max_cid_bytes;
            let postage = reply && size(b.postage_receipt) <= l.max_postage_bytes;
            let count = postage && b.attachment_cids@.len() <= l.max_attachments;
            let cids = count && none_over(b.attachment_cids@, l.max_cid_bytes);
            &&& !subject ==> is_excess(r, Measured::Subject, size(b.subject), l.max_subject_bytes)
            &&& subject && !body ==> is_excess(
                r,
                Measured::BodyCid,
                size(b.body_cid),
                l.max_cid_bytes,
            )
            &&& body && !reply ==> is_excess(
                r,
                Measured::InReplyTo,
                size(b.in_reply_to),
                l.max_cid_bytes,
            )
            &&& reply && !postage ==> is_excess(
                r,
                Measured::PostageReceipt,
                size(b.postage_receipt),
                l.max_postage_bytes,
            )
            &&& postage && !count ==> r == Err::<(), MailError>(
                MailError::TooManyAttachments {
                    count: b.attachment_cids@.len() as usize,
                    limit: l.max_attachments,
                },
            )
            &&& count && is_first_over(b.attachment_cids@, i, l.max_cid_bytes) ==> is_excess(
                r,
                Measured::AttachmentCid(i as usize),
                size(b.attachment_cids@[i]),
                l.max_cid_bytes,
            )
            &&& cids && encoded@.len() > l.max_envelope_bytes ==> is_excess(
                r,
                Measured::Envelope,
                encoded@.len(),
                l.max_envelope_bytes,
            )
        }),
{
    assert(encoded.len() == encoded@.len());
    let cids = e.body.attachment_cids;
    assert(e@.body.attachment_cids == cids.deep_view());
    lemma_first_over(cids, 0, l.max_cid_bytes);
    if none_over(cids@, l.max_cid_bytes) {
        assert forall|k: int| !is_first_over(cids@, k, l.max_cid_bytes) by {}
    }
    if is_first_over(cids@, i, l.max_cid_bytes) {
        assert forall|k: int| #[trigger] is_first_over(cids@, k, l.max_cid_bytes) implies k
            == i by {
            if k < i {
                assert(size(cids@[k]) <= l.max_cid_bytes);
            } else if i < k {
                assert(size(cids@[i]) <= l.max_cid_bytes);
            }
        }
    }
}

/// Whether `r` is the complaint that this takes more bytes than it may.
pub open spec fn is_excess(
    r: Result<(), MailError>,
    what: Measured,
    size: nat,
    limit: usize,
) -> bool {
    r == Err::<(), MailError>(MailError::TooLarge { what, size: size as usize, limit })
}

/// A page has as many as were asked for, at least one and at most the ceiling.
pub proof fn lemma_page_is_clamped(l: &Limits, limit: usize, r: usize)
    requires
        l.max_page >= 1,
        call_ensures(Limits::clamp_page, (l, limit), r),
    ensures
        1 <= r <= l.max_page,
        1 <= limit <= l.max_page ==> r == limit,
        limit == 0 ==> r == 1,
        limit > l.max_page ==> r == l.max_page,
{
}

/// The limits unless others are given.
pub proof fn lemma_default_limits(r: Limits)
    requires
        call_ensures(Limits::default, (), r),
    ensures
        r.max_subject_bytes == 4096,
        r.max_cid_bytes == 256,
        r.max_attachments == 64,
        r.max_postage_bytes == 1024,
        r.max_envelope_bytes == 262144,
        r.max_page == 500,
        r.max_attachment_bytes == 41943040,
        r.max_body_bytes == 26214400,
{
}

} // verus!
