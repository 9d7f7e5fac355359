//! Resource bounds: the sizes and counts that a mailbox and a client accept.
//!
//! The number of messages a mailbox keeps does not bound how large one of them is or how many a
//! single request asks for. Those bounds stand here and are applied where outside input comes in.

use crate::envelope::Envelope;
use crate::error::{MailError, Measured};
use crate::wire::Wire;
use vstd::prelude::*;

verus! {

/// The largest sizes and counts that are accepted.
#[derive(Debug, Clone, Copy, PartialEq, Eq, Structural)]
pub struct Limits {
    /// Bytes in a subject in clear.
    pub max_subject_bytes: usize,
    /// Bytes in a CID or message id.
    pub max_cid_bytes: usize,
    /// Attachments of one envelope.
    pub max_attachments: usize,
    /// Bytes in a postage receipt.
    pub max_postage_bytes: usize,
    /// Bytes of a whole envelope.
    pub max_envelope_bytes: usize,
    /// Envelopes in one page of an inbox.
    pub max_page: usize,
    /// Bytes of one attachment before it is sealed.
    pub max_attachment_bytes: usize,
    /// Bytes of one body before it is sealed.
    pub max_body_bytes: usize,
}

/// The limits in force unless others are given.
pub open spec fn default_limits() -> Limits {
    Limits {
        max_subject_bytes: 4096,
        max_cid_bytes: 256,
        max_attachments: 64,
        max_postage_bytes: 1024,
        max_envelope_bytes: 262144,
        max_page: 500,
        max_attachment_bytes: 41943040,
        max_body_bytes: 26214400,
    }
}

impl Default for Limits {
    fn default() -> (r: Self)
        ensures
            r == default_limits(),
    {
        Limits {
            max_subject_bytes: 4 * 1024,
            max_cid_bytes: 256,
            max_attachments: 64,
            max_postage_bytes: 1024,
            max_envelope_bytes: 256 * 1024,
            max_page: 500,
            max_attachment_bytes: 40 * 1024 * 1024,
            max_body_bytes: 25 * 1024 * 1024,
        }
    }
}

/// The number of bytes of the text.
pub open spec fn byte_len(s: Seq<char>) -> nat {
    vstd::utf8::encode_utf8(s).len()
}

/// Whether the text has more bytes than `limit`, as a failure.
pub open spec fn over(what: Measured, s: Seq<char>, limit: usize) -> Option<MailError> {
    if byte_len(s) > limit {
        Some(MailError::TooLarge { what, size: byte_len(s) as usize, limit })
    } else {
        None
    }
}

/// The first of the texts from position `from` on that has more bytes than `limit`.
pub open spec fn first_over(texts: Seq<Seq<char>>, from: int, limit: usize) -> Option<MailError>
    decreases texts.len() - from,
{
    if 0 <= from < texts.len() {
        if byte_len(texts[from]) > limit {
            over(Measured::AttachmentCid(from as usize), texts[from], limit)
        } else {
            first_over(texts, from + 1, limit)
        }
    } else {
        None
    }
}

impl Limits {
    /// The first limit that the envelope exceeds, if any: those on its fields, in their order, and
    /// then the one on the whole.
    pub open spec fn exceeded(self, e: crate::envelope::EnvelopeModel) -> Option<MailError> {
        let b = e.body;
        let total = crate::envelope::capped(Envelope::wire(e).len());
        if byte_len(b.subject) > self.max_subject_bytes {
            over(Measured::Subject, b.subject, self.max_subject_bytes)
        } else if byte_len(b.body_cid) > self.max_cid_bytes {
            over(Measured::BodyCid, b.body_cid, self.max_cid_bytes)
        } else if byte_len(b.in_reply_to) > self.max_cid_bytes {
            over(Measured::InReplyTo, b.in_reply_to, self.max_cid_bytes)
        } else if byte_len(b.postage_receipt) > self.max_postage_bytes {
            over(Measured::PostageReceipt, b.postage_receipt, self.max_postage_bytes)
        } else if b.attachment_cids.len() > self.max_attachments {
            Some(
                MailError::TooManyAttachments {
                    count: b.attachment_cids.len() as usize,
                    limit: self.max_attachments,
                },
            )
        } else if first_over(b.attachment_cids, 0, self.max_cid_bytes) is Some {
            first_over(b.attachment_cids, 0, self.max_cid_bytes)
        } else if total > self.max_envelope_bytes {
            Some(
                MailError::TooLarge {
                    what: Measured::Envelope,
                    size: total as usize,
                    limit: self.max_envelope_bytes,
                },
            )
        } else {
            None
        }
    }

    /// Checks the envelope against every limit on fields and on the whole; the error names the
    /// first one that is exceeded.
    pub fn check_envelope(&self, env: &Envelope) -> (r: Result<(), MailError>)
        ensures
            r == (match self.exceeded(env@) {
                Some(e) => Err::<(), MailError>(e),
                None => Ok(()),
            }),
    {
        let b = &env.body;
        let subject: usize = b.subject.as_str().as_bytes().len();
        if subject > self.max_subject_bytes {
            return Err(
                MailError::TooLarge {
                    what: Measured::Subject,
                    size: subject,
                    limit: self.max_subject_bytes,
                },
            );
        }
        let body_cid: usize = b.body_cid.as_str().as_bytes().len();
        if body_cid > self.max_cid_bytes {
            return Err(
                MailError::TooLarge {
                    what: Measured::BodyCid,
                    size: body_cid,
                    limit: self.max_cid_bytes,
                },
            );
        }
        let in_reply_to: usize = b.in_reply_to.as_str().as_bytes().len();
        if in_reply_to > self.max_cid_bytes {
            return Err(
                MailError::TooLarge {
                    what: Measured::InReplyTo,
                    size: in_reply_to,
                    limit: self.max_cid_bytes,
                },
            );
        }
        let postage: usize = b.postage_receipt.as_str().as_bytes().len();
        if postage > self.max_postage_bytes {
            return Err(
                MailError::TooLarge {
                    what: Measured::PostageReceipt,
                    size: postage,
                    limit: self.max_postage_bytes,
                },
            );
        }
        let count: usize = b.attachment_cids.len();
        if count > self.max_attachments {
            return Err(MailError::TooManyAttachments { count, limit: self.max_attachments });
        }
        let mut i: usize = 0;
        while i < count
            invariant
                i <= count,
                count == b.attachment_cids@.len(),
                first_over(b@.attachment_cids, i as int, self.max_cid_bytes) == first_over(
                    b@.attachment_cids,
                    0,
                    self.max_cid_bytes,
                ),
                first_over(b@.attachment_cids, 0, self.max_cid_bytes) is Some ==> self.exceeded(
                    env@,
                ) == first_over(b@.attachment_cids, 0, self.max_cid_bytes),
            decreases count - i,
        {
            let cid: usize = b.attachment_cids[i].as_str().as_bytes().len();
            assert(b@.attachment_cids[i as int] == b.attachment_cids@[i as int]@);
            if cid > self.max_cid_bytes {
                return Err(
                    MailError::TooLarge {
                        what: Measured::AttachmentCid(i),
                        size: cid,
                        limit: self.max_cid_bytes,
                    },
                );
            }
            i += 1;
        }
        let total: usize = env.encoded_len();
        if total > self.max_envelope_bytes {
            return Err(
                MailError::TooLarge {
                    what: Measured::Envelope,
                    size: total,
                    limit: self.max_envelope_bytes,
                },
            );
        }
        Ok(())
    }

    /// The number of envelopes that a page of `limit` may hold: at least one, at most the ceiling.
    pub open spec fn page(self, limit: usize) -> usize {
        if limit < 1 {
            1
        } else if limit > self.max_page {
            self.max_page
        } else {
            limit
        }
    }

    /// The requested page `limit` within the ceiling; 0 counts as 1, so that a caller always gets
    /// on.
    pub fn clamp_page(&self, limit: usize) -> (r: usize)
        requires
            self.max_page >= 1,
        ensures
            r == self.page(limit),
            1 <= r <= self.max_page,
    {
        if limit < 1 {
            1
        } else if limit > self.max_page {
            self.max_page
        } else {
            limit
        }
    }
}

/// An envelope that is accepted is no larger than the limits, in any field and as a whole.
pub proof fn lemma_accepted_is_bounded(l: Limits, e: crate::envelope::EnvelopeModel)
    requires
        l.exceeded(e) is None,
    ensures
        byte_len(e.body.subject) <= l.max_subject_bytes,
        byte_len(e.body.body_cid) <= l.max_cid_bytes,
        byte_len(e.body.in_reply_to) <= l.max_cid_bytes,
        byte_len(e.body.postage_receipt) <= l.max_postage_bytes,
        e.body.attachment_cids.len() <= l.max_attachments,
        forall|i: int|
            0 <= i < e.body.attachment_cids.len() ==> byte_len(
                #[trigger] e.body.attachment_cids[i],
            ) <= l.max_cid_bytes,
        crate::envelope::capped(Envelope::wire(e).len()) <= l.max_envelope_bytes,
{
    lemma_none_over(e.body.attachment_cids, 0, l.max_cid_bytes);
}

proof fn lemma_none_over(texts: Seq<Seq<char>>, from: int, limit: usize)
    requires
        0 <= from,
        first_over(texts, from, limit) is None,
    ensures
        forall|i: int| from <= i < texts.len() ==> byte_len(#[trigger] texts[i]) <= limit,
    decreases texts.len() - from,
{
    if from < texts.len() {
        lemma_none_over(texts, from + 1, limit);
    }
}

} // verus!
