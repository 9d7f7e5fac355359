//! The requests and replies that are exchanged over the mesh.

use crate::envelope::{Envelope, EnvelopeModel};
use crate::error::{Format, MailError};
use crate::receipt::{Receipt, ReceiptModel};
use crate::wire::Wire;
use vstd::prelude::*;
use vstd::slice::{slice_subrange, slice_to_vec};

verus! {

/// The topic under which all requests are sent.
pub const MAIL_TOPIC: &'static str = "ce-mail/v1";

/// A capability chain in its binary form: the number of its links in eight bytes, then the links.
/// The library carries it to whoever checks capabilities and does not look inside.
#[derive(Debug, PartialEq, Eq)]
pub struct Grant {
    pub chain: Vec<u8>,
}

impl View for Grant {
    type V = Seq<u8>;

    open spec fn view(&self) -> Seq<u8> {
        self.chain@
    }
}

impl Clone for Grant {
    fn clone(&self) -> (r: Self)
        ensures
            r@ == self@,
    {
        let chain = self.chain.clone();
        assert(chain@ =~= self.chain@);
        Grant { chain }
    }
}

impl Grant {
    /// The chain with no links.
    pub fn none() -> (r: Grant)
        ensures
            r@ == crate::wire::le64(0),
            r@.len() == 8,
    {
        proof {
            crate::wire::lemma_le64_len(0);
        }
        let mut chain: Vec<u8> = Vec::new();
        0u64.put(&mut chain);
        assert(chain@ =~= crate::wire::le64(0));
        Grant { chain }
    }
}

/// A request to a recipient or to a mailbox.
#[derive(Debug, Clone)]
pub enum MailRequest {
    /// Deliver an envelope to its recipient, or to a mailbox that stores for the recipient. The
    /// grant proves that the mailbox may accept mail for the recipient.
    Deliver { envelope: Envelope, grant: Grant },
    /// Read a recipient's inbox from the cursor `since` on. The grant proves that the requester
    /// acts for the recipient.
    Drain { recipient: String, since: usize, grant: Grant },
    /// Acknowledge everything before `cursor`, so that the mailbox can forget it.
    Ack { recipient: String, cursor: usize, grant: Grant },
    /// Read at most `limit` envelopes of a recipient's inbox from the cursor `since` on.
    DrainPage { recipient: String, since: usize, limit: usize, grant: Grant },
    /// Deposit a receipt for the sender `for_sender` to collect. The grant proves that the mailbox
    /// may accept on the sender's behalf.
    PutReceipt { for_sender: String, receipt: Receipt, grant: Grant },
    /// Collect the receipts for `sender`. The grant proves that the requester acts for the sender.
    CollectReceipts { sender: String, grant: Grant },
}

/// A reply of a recipient or of a mailbox.
#[derive(Debug, Clone)]
pub enum MailReply {
    /// The envelope is stored; it was before if `duplicate`.
    Delivered { duplicate: bool },
    /// The envelopes from the cursor on, and the cursor after them.
    Drained { envelopes: Vec<Envelope>, cursor: usize },
    /// A page of envelopes, the cursor after them, and whether there are more.
    Page { envelopes: Vec<Envelope>, cursor: usize, more: bool },
    /// The number of envelopes that were forgotten.
    Acked { removed: usize },
    /// The receipt is stored; it was before if `duplicate`.
    ReceiptAccepted { duplicate: bool },
    /// The collected receipts.
    Receipts { receipts: Vec<Receipt> },
    /// The request was refused.
    Error { message: String },
}

/// A request as mathematical values.
#[verifier::ext_equal]
pub enum RequestModel {
    Deliver { envelope: EnvelopeModel, grant: Seq<u8> },
    Drain { recipient: Seq<char>, since: usize, grant: Seq<u8> },
    Ack { recipient: Seq<char>, cursor: usize, grant: Seq<u8> },
    DrainPage { recipient: Seq<char>, since: usize, limit: usize, grant: Seq<u8> },
    PutReceipt { for_sender: Seq<char>, receipt: ReceiptModel, grant: Seq<u8> },
    CollectReceipts { sender: Seq<char>, grant: Seq<u8> },
}

/// A reply as mathematical values.
#[verifier::ext_equal]
pub enum ReplyModel {
    Delivered { duplicate: bool },
    Drained { envelopes: Seq<EnvelopeModel>, cursor: usize },
    Page { envelopes: Seq<EnvelopeModel>, cursor: usize, more: bool },
    Acked { removed: usize },
    ReceiptAccepted { duplicate: bool },
    Receipts { receipts: Seq<ReceiptModel> },
    Error { message: Seq<char> },
}

impl View for MailRequest {
    type V = RequestModel;

    open spec fn view(&self) -> RequestModel {
        match *self {
            MailRequest::Deliver { envelope, grant } => RequestModel::Deliver {
                envelope: envelope@,
                grant: grant@,
            },
            MailRequest::Drain { recipient, since, grant } => RequestModel::Drain {
                recipient: recipient@,
                since,
                grant: grant@,
            },
            MailRequest::Ack { recipient, cursor, grant } => RequestModel::Ack {
                recipient: recipient@,
                cursor,
                grant: grant@,
            },
            MailRequest::DrainPage { recipient, since, limit, grant } => RequestModel::DrainPage {
                recipient: recipient@,
                since,
                limit,
                grant: grant@,
            },
            MailRequest::PutReceipt { for_sender, receipt, grant } => RequestModel::PutReceipt {
                for_sender: for_sender@,
                receipt: receipt@,
                grant: grant@,
            },
            MailRequest::CollectReceipts { sender, grant } => RequestModel::CollectReceipts {
                sender: sender@,
                grant: grant@,
            },
        }
    }
}

impl View for MailReply {
    type V = ReplyModel;

    open spec fn view(&self) -> ReplyModel {
        match *self {
            MailReply::Delivered { duplicate } => ReplyModel::Delivered { duplicate },
            MailReply::Drained { envelopes, cursor } => ReplyModel::Drained {
                envelopes: envelopes.deep_view(),
                cursor,
            },
            MailReply::Page { envelopes, cursor, more } => ReplyModel::Page {
                envelopes: envelopes.deep_view(),
                cursor,
                more,
            },
            MailReply::Acked { removed } => ReplyModel::Acked { removed },
            MailReply::ReceiptAccepted { duplicate } => ReplyModel::ReceiptAccepted { duplicate },
            MailReply::Receipts { receipts } => ReplyModel::Receipts {
                receipts: receipts.deep_view(),
            },
            MailReply::Error { message } => ReplyModel::Error { message: message@ },
        }
    }
}

impl DeepView for MailReply {
    type V = ReplyModel;

    open spec fn deep_view(&self) -> ReplyModel {
        self.view()
    }
}

/// The bytes of a request before its grant: the number of the variant and the other fields.
pub open spec fn request_head(m: RequestModel) -> Seq<u8> {
    match m {
        RequestModel::Deliver { envelope, grant } => <(u32, Envelope)>::wire((0, envelope)),
        RequestModel::Drain { recipient, since, grant } => <(u32, (String, usize))>::wire(
            (1, (recipient, since)),
        ),
        RequestModel::Ack { recipient, cursor, grant } => <(u32, (String, usize))>::wire(
            (2, (recipient, cursor)),
        ),
        RequestModel::DrainPage { recipient, since, limit, grant } => <(
            u32,
            (String, (usize, usize)),
        )>::wire((3, (recipient, (since, limit)))),
        RequestModel::PutReceipt { for_sender, receipt, grant } => <(
            u32,
            (String, Receipt),
        )>::wire((4, (for_sender, receipt))),
        RequestModel::CollectReceipts { sender, grant } => <(u32, String)>::wire((5, sender)),
    }
}

/// The grant of a request.
pub open spec fn request_grant(m: RequestModel) -> Seq<u8> {
    match m {
        RequestModel::Deliver { envelope, grant } => grant,
        RequestModel::Drain { recipient, since, grant } => grant,
        RequestModel::Ack { recipient, cursor, grant } => grant,
        RequestModel::DrainPage { recipient, since, limit, grant } => grant,
        RequestModel::PutReceipt { for_sender, receipt, grant } => grant,
        RequestModel::CollectReceipts { sender, grant } => grant,
    }
}

/// The bytes of a request: the grant is its last field.
pub open spec fn request_bytes(m: RequestModel) -> Seq<u8> {
    request_head(m) + request_grant(m)
}

/// Whether the parts of a request are small enough for this machine, and its grant has the number
/// of links in front.
pub open spec fn request_fits(m: RequestModel) -> bool {
    request_grant(m).len() >= 8 && match m {
        RequestModel::Deliver { envelope, grant } => Envelope::fits(envelope),
        RequestModel::Drain { recipient, since, grant } => String::fits(recipient),
        RequestModel::Ack { recipient, cursor, grant } => String::fits(recipient),
        RequestModel::DrainPage { recipient, since, limit, grant } => String::fits(recipient),
        RequestModel::PutReceipt { for_sender, receipt, grant } => String::fits(for_sender)
            && Receipt::fits(receipt),
        RequestModel::CollectReceipts { sender, grant } => String::fits(sender),
    }
}

/// The request with the variant number `tag` whose other fields are at the front of `b`; what
/// follows them is the grant.
pub open spec fn parse_request_fields(tag: u32, b: Seq<u8>) -> Option<RequestModel> {
    if tag == 0 {
        match Envelope::parse(b) {
            Some((envelope, grant)) => Some(RequestModel::Deliver { envelope, grant }),
            None => None,
        }
    } else if tag == 1 {
        match <(String, usize)>::parse(b) {
            Some(((recipient, since), grant)) => Some(
                RequestModel::Drain { recipient, since, grant },
            ),
            None => None,
        }
    } else if tag == 2 {
        match <(String, usize)>::parse(b) {
            Some(((recipient, cursor), grant)) => Some(
                RequestModel::Ack { recipient, cursor, grant },
            ),
            None => None,
        }
    } else if tag == 3 {
        match <(String, (usize, usize))>::parse(b) {
            Some(((recipient, (since, limit)), grant)) => Some(
                RequestModel::DrainPage { recipient, since, limit, grant },
            ),
            None => None,
        }
    } else if tag == 4 {
        match <(String, Receipt)>::parse(b) {
            Some(((for_sender, receipt), grant)) => Some(
                RequestModel::PutReceipt { for_sender, receipt, grant },
            ),
            None => None,
        }
    } else if tag == 5 {
        match String::parse(b) {
            Some((sender, grant)) => Some(RequestModel::CollectReceipts { sender, grant }),
            None => None,
        }
    } else {
        None
    }
}

/// The request that the bytes hold, if any.
pub open spec fn parse_request(b: Seq<u8>) -> Option<RequestModel> {
    match u32::parse(b) {
        Some((tag, after)) => match parse_request_fields(tag, after) {
            Some(m) => if request_grant(m).len() >= 8 {
                Some(m)
            } else {
                None
            },
            None => None,
        },
        None => None,
    }
}

/// A request reads back from its bytes as itself.
pub proof fn lemma_request_round_trip(m: RequestModel)
    requires
        request_fits(m),
    ensures
        parse_request(request_bytes(m)) == Some(m),
{
    let grant = request_grant(m);
    match m {
        RequestModel::Deliver { envelope, .. } => {
            let w = Envelope::wire(envelope);
            assert(request_bytes(m) =~= crate::wire::le32(0) + (w + grant));
            u32::lemma_reads_back(0, w + grant);
            Envelope::lemma_reads_back(envelope, grant);
        },
        RequestModel::Drain { recipient, since, .. } => {
            let w = <(String, usize)>::wire((recipient, since));
            assert(request_bytes(m) =~= crate::wire::le32(1) + (w + grant));
            u32::lemma_reads_back(1, w + grant);
            <(String, usize)>::lemma_reads_back((recipient, since), grant);
        },
        RequestModel::Ack { recipient, cursor, .. } => {
            let w = <(String, usize)>::wire((recipient, cursor));
            assert(request_bytes(m) =~= crate::wire::le32(2) + (w + grant));
            u32::lemma_reads_back(2, w + grant);
            <(String, usize)>::lemma_reads_back((recipient, cursor), grant);
        },
        RequestModel::DrainPage { recipient, since, limit, .. } => {
            let w = <(String, (usize, usize))>::wire((recipient, (since, limit)));
            assert(request_bytes(m) =~= crate::wire::le32(3) + (w + grant));
            u32::lemma_reads_back(3, w + grant);
            <(String, (usize, usize))>::lemma_reads_back((recipient, (since, limit)), grant);
        },
        RequestModel::PutReceipt { for_sender, receipt, .. } => {
            let w = <(String, Receipt)>::wire((for_sender, receipt));
            assert(request_bytes(m) =~= crate::wire::le32(4) + (w + grant));
            u32::lemma_reads_back(4, w + grant);
            <(String, Receipt)>::lemma_reads_back((for_sender, receipt), grant);
        },
        RequestModel::CollectReceipts { sender, .. } => {
            let w = String::wire(sender);
            assert(request_bytes(m) =~= crate::wire::le32(5) + (w + grant));
            u32::lemma_reads_back(5, w + grant);
            String::lemma_reads_back(sender, grant);
        },
    }
}

/// The grant made of what follows the first `used` bytes.
fn grant_after(bytes: &[u8], used: usize) -> (r: Grant)
    requires
        used <= bytes@.len(),
    ensures
        r@ == bytes@.skip(used as int),
{
    let chain = slice_to_vec(slice_subrange(bytes, used, bytes.len()));
    assert(chain@ =~= bytes@.skip(used as int));
    Grant { chain }
}

/// Reads the request with the variant number `tag` whose other fields are at the front of `b`.
fn read_request_fields(tag: u32, b: &[u8]) -> (r: Option<MailRequest>)
    ensures
        match parse_request_fields(tag, b@) {
            Some(m) => r is Some && r->0@ == m,
            None => r is None,
        },
{
    if tag == 0 {
        match Envelope::get(b) {
            Some((envelope, used)) => Some(
                MailRequest::Deliver { envelope, grant: grant_after(b, used) },
            ),
            None => None,
        }
    } else if tag == 1 {
        match <(String, usize)>::get(b) {
            Some(((recipient, since), used)) => Some(
                MailRequest::Drain { recipient, since, grant: grant_after(b, used) },
            ),
            None => None,
        }
    } else if tag == 2 {
        match <(String, usize)>::get(b) {
            Some(((recipient, cursor), used)) => Some(
                MailRequest::Ack { recipient, cursor, grant: grant_after(b, used) },
            ),
            None => None,
        }
    } else if tag == 3 {
        match <(String, (usize, usize))>::get(b) {
            Some(((recipient, (since, limit)), used)) => Some(
                MailRequest::DrainPage { recipient, since, limit, grant: grant_after(b, used) },
            ),
            None => None,
        }
    } else if tag == 4 {
        match <(String, Receipt)>::get(b) {
            Some(((for_sender, receipt), used)) => Some(
                MailRequest::PutReceipt { for_sender, receipt, grant: grant_after(b, used) },
            ),
            None => None,
        }
    } else if tag == 5 {
        match String::get(b) {
            Some((sender, used)) => Some(
                MailRequest::CollectReceipts { sender, grant: grant_after(b, used) },
            ),
            None => None,
        }
    } else {
        None
    }
}

impl MailRequest {
    /// The grant of the request.
    pub fn grant(&self) -> (r: &Grant)
        ensures
            r@ == request_grant(self@),
    {
        match self {
            MailRequest::Deliver { grant, .. } => grant,
            MailRequest::Drain { grant, .. } => grant,
            MailRequest::Ack { grant, .. } => grant,
            MailRequest::DrainPage { grant, .. } => grant,
            MailRequest::PutReceipt { grant, .. } => grant,
            MailRequest::CollectReceipts { grant, .. } => grant,
        }
    }

    /// The bytes of the request.
    pub fn encode(&self) -> (r: Vec<u8>)
        ensures
            r@ == request_bytes(self@),
            request_grant(self@).len() >= 8 ==> request_fits(self@),
    {
        let mut out: Vec<u8> = Vec::new();
        match self {
            MailRequest::Deliver { envelope, .. } => {
                0u32.put(&mut out);
                envelope.put(&mut out);
            },
            MailRequest::Drain { recipient, since, .. } => {
                1u32.put(&mut out);
                recipient.put(&mut out);
                since.put(&mut out);
            },
            MailRequest::Ack { recipient, cursor, .. } => {
                2u32.put(&mut out);
                recipient.put(&mut out);
                cursor.put(&mut out);
            },
            MailRequest::DrainPage { recipient, since, limit, .. } => {
                3u32.put(&mut out);
                recipient.put(&mut out);
                since.put(&mut out);
                limit.put(&mut out);
            },
            MailRequest::PutReceipt { for_sender, receipt, .. } => {
                4u32.put(&mut out);
                for_sender.put(&mut out);
                receipt.put(&mut out);
            },
            MailRequest::CollectReceipts { sender, .. } => {
                5u32.put(&mut out);
                sender.put(&mut out);
            },
        }
        assert(out@ =~= request_head(self@));
        let mut chain = self.grant().clone().chain;
        out.append(&mut chain);
        out
    }

    /// The bytes of the request; there is no request that has none.
    pub fn try_encode(&self) -> (r: Result<Vec<u8>, MailError>)
        ensures
            r is Ok,
            r->Ok_0@ == request_bytes(self@),
            request_grant(self@).len() >= 8 ==> request_fits(self@),
    {
        Ok(self.encode())
    }

    /// Reads a request from its bytes. The grant is not looked into: whether it holds a capability
    /// chain is for [`MailRequest::decode_readable`] to find out.
    pub fn decode(bytes: &[u8]) -> (r: Result<MailRequest, MailError>)
        ensures
            match parse_request(bytes@) {
                Some(m) => r is Ok && r->Ok_0@ == m,
                None => r == Err::<MailRequest, MailError>(
                    MailError::Malformed(Format::MailRequest),
                ),
            },
    {
        let (tag, used): (u32, usize) = match u32::get(bytes) {
            Some(got) => got,
            None => return Err(MailError::Malformed(Format::MailRequest)),
        };
        let fields = slice_subrange(bytes, used, bytes.len());
        assert(fields@ =~= bytes@.skip(used as int));
        match read_request_fields(tag, fields) {
            Some(request) => if request.grant().chain.len() >= 8 {
                Ok(request)
            } else {
                Err(MailError::Malformed(Format::MailRequest))
            },
            None => Err(MailError::Malformed(Format::MailRequest)),
        }
    }

    /// Reads a request from its bytes: an error also where `readable` does not find the grant to
    /// be a capability chain. It is asked exactly about the grant of what could be read.
    pub fn decode_readable<R: Fn(&Grant) -> bool>(bytes: &[u8], readable: &R) -> (r: Result<
        MailRequest,
        MailError,
    >)
        requires
            forall|g: &Grant| #[trigger] call_requires(*readable, (g,)),
        ensures
            match parse_request(bytes@) {
                Some(m) => exists|ok: bool| #[trigger]
                    chain_says(*readable, request_grant(m), ok) && if ok {
                        r is Ok && r->Ok_0@ == m
                    } else {
                        r == Err::<MailRequest, MailError>(
                            MailError::Malformed(Format::MailRequest),
                        )
                    },
                None => r == Err::<MailRequest, MailError>(
                    MailError::Malformed(Format::MailRequest),
                ),
            },
    {
        match MailRequest::decode(bytes) {
            Ok(request) => {
                let ok: bool = readable(request.grant());
                assert(chain_says(*readable, request_grant(request@), ok));
                if ok {
                    Ok(request)
                } else {
                    Err(MailError::Malformed(Format::MailRequest))
                }
            },
            Err(e) => Err(e),
        }
    }
}

/// Whether `readable` can find the bytes to be a capability chain, or not to.
pub open spec fn chain_says<R: Fn(&Grant) -> bool>(readable: R, chain: Seq<u8>, ok: bool) -> bool {
    exists|g: &Grant| g@ == chain && #[trigger] call_ensures(readable, (g,), ok)
}

/// The reply with the variant number `tag` whose fields are at the front of `b`.
pub open spec fn parse_reply_fields(tag: u32, b: Seq<u8>) -> Option<(ReplyModel, Seq<u8>)> {
    if tag == 0 {
        match bool::parse(b) {
            Some((duplicate, rest)) => Some((ReplyModel::Delivered { duplicate }, rest)),
            None => None,
        }
    } else if tag == 1 {
        match <(Vec<Envelope>, usize)>::parse(b) {
            Some(((envelopes, cursor), rest)) => Some(
                (ReplyModel::Drained { envelopes, cursor }, rest),
            ),
            None => None,
        }
    } else if tag == 2 {
        match <(Vec<Envelope>, (usize, bool))>::parse(b) {
            Some(((envelopes, (cursor, more)), rest)) => Some(
                (ReplyModel::Page { envelopes, cursor, more }, rest),
            ),
            None => None,
        }
    } else if tag == 3 {
        match usize::parse(b) {
            Some((removed, rest)) => Some((ReplyModel::Acked { removed }, rest)),
            None => None,
        }
    } else if tag == 4 {
        match bool::parse(b) {
            Some((duplicate, rest)) => Some((ReplyModel::ReceiptAccepted { duplicate }, rest)),
            None => None,
        }
    } else if tag == 5 {
        match <Vec<Receipt>>::parse(b) {
            Some((receipts, rest)) => Some((ReplyModel::Receipts { receipts }, rest)),
            None => None,
        }
    } else if tag == 6 {
        match String::parse(b) {
            Some((message, rest)) => Some((ReplyModel::Error { message }, rest)),
            None => None,
        }
    } else {
        None
    }
}

/// The number of the reply's variant.
pub open spec fn reply_tag(m: ReplyModel) -> u32 {
    match m {
        ReplyModel::Delivered { duplicate } => 0,
        ReplyModel::Drained { envelopes, cursor } => 1,
        ReplyModel::Page { envelopes, cursor, more } => 2,
        ReplyModel::Acked { removed } => 3,
        ReplyModel::ReceiptAccepted { duplicate } => 4,
        ReplyModel::Receipts { receipts } => 5,
        ReplyModel::Error { message } => 6,
    }
}

/// The bytes of the reply's fields.
pub open spec fn reply_fields(m: ReplyModel) -> Seq<u8> {
    match m {
        ReplyModel::Delivered { duplicate } => bool::wire(duplicate),
        ReplyModel::Drained { envelopes, cursor } => <(Vec<Envelope>, usize)>::wire(
            (envelopes, cursor),
        ),
        ReplyModel::Page { envelopes, cursor, more } => <(Vec<Envelope>, (usize, bool))>::wire(
            (envelopes, (cursor, more)),
        ),
        ReplyModel::Acked { removed } => usize::wire(removed),
        ReplyModel::ReceiptAccepted { duplicate } => bool::wire(duplicate),
        ReplyModel::Receipts { receipts } => <Vec<Receipt>>::wire(receipts),
        ReplyModel::Error { message } => String::wire(message),
    }
}

proof fn lemma_reply_fields_read_back(m: ReplyModel, rest: Seq<u8>)
    requires
        MailReply::fits(m),
    ensures
        parse_reply_fields(reply_tag(m), reply_fields(m) + rest) == Some((m, rest)),
{
    match m {
        ReplyModel::Delivered { duplicate } => bool::lemma_reads_back(duplicate, rest),
        ReplyModel::Drained { envelopes, cursor } => <(Vec<Envelope>, usize)>::lemma_reads_back(
            (envelopes, cursor),
            rest,
        ),
        ReplyModel::Page { envelopes, cursor, more } => <(
            Vec<Envelope>,
            (usize, bool),
        )>::lemma_reads_back((envelopes, (cursor, more)), rest),
        ReplyModel::Acked { removed } => usize::lemma_reads_back(removed, rest),
        ReplyModel::ReceiptAccepted { duplicate } => bool::lemma_reads_back(duplicate, rest),
        ReplyModel::Receipts { receipts } => <Vec<Receipt>>::lemma_reads_back(receipts, rest),
        ReplyModel::Error { message } => String::lemma_reads_back(message, rest),
    }
}

proof fn lemma_reply_fields_wrote(tag: u32, b: Seq<u8>)
    ensures
        parse_reply_fields(tag, b) matches Some((m, rest)) ==> MailReply::fits(m) && reply_tag(m)
            == tag && b == reply_fields(m) + rest,
{
    if tag == 0 || tag == 4 {
        bool::lemma_wrote(b);
    } else if tag == 1 {
        <(Vec<Envelope>, usize)>::lemma_wrote(b);
    } else if tag == 2 {
        <(Vec<Envelope>, (usize, bool))>::lemma_wrote(b);
    } else if tag == 3 {
        usize::lemma_wrote(b);
    } else if tag == 5 {
        <Vec<Receipt>>::lemma_wrote(b);
    } else if tag == 6 {
        String::lemma_wrote(b);
    }
}

/// Reads the reply with the variant number `tag` whose fields are at the front of `b`.
fn read_reply_fields(tag: u32, b: &[u8]) -> (r: Option<(MailReply, usize)>)
    ensures
        match parse_reply_fields(tag, b@) {
            Some((m, rest)) => r matches Some((x, used)) && x@ == m && used <= b@.len() && rest
                == b@.skip(used as int),
            None => r is None,
        },
{
    if tag == 0 {
        match bool::get(b) {
            Some((duplicate, used)) => Some((MailReply::Delivered { duplicate }, used)),
            None => None,
        }
    } else if tag == 1 {
        match <(Vec<Envelope>, usize)>::get(b) {
            Some(((envelopes, cursor), used)) => Some(
                (MailReply::Drained { envelopes, cursor }, used),
            ),
            None => None,
        }
    } else if tag == 2 {
        match <(Vec<Envelope>, (usize, bool))>::get(b) {
            Some(((envelopes, (cursor, more)), used)) => Some(
                (MailReply::Page { envelopes, cursor, more }, used),
            ),
            None => None,
        }
    } else if tag == 3 {
        match usize::get(b) {
            Some((removed, used)) => Some((MailReply::Acked { removed }, used)),
            None => None,
        }
    } else if tag == 4 {
        match bool::get(b) {
            Some((duplicate, used)) => Some((MailReply::ReceiptAccepted { duplicate }, used)),
            None => None,
        }
    } else if tag == 5 {
        match <Vec<Receipt>>::get(b) {
            Some((receipts, used)) => Some((MailReply::Receipts { receipts }, used)),
            None => None,
        }
    } else if tag == 6 {
        match String::get(b) {
            Some((message, used)) => Some((MailReply::Error { message }, used)),
            None => None,
        }
    } else {
        None
    }
}

impl Wire for MailReply {
    open spec fn fits(v: ReplyModel) -> bool {
        match v {
            ReplyModel::Delivered { duplicate } => true,
            ReplyModel::Drained { envelopes, cursor } => <Vec<Envelope>>::fits(envelopes),
            ReplyModel::Page { envelopes, cursor, more } => <Vec<Envelope>>::fits(envelopes),
            ReplyModel::Acked { removed } => true,
            ReplyModel::ReceiptAccepted { duplicate } => true,
            ReplyModel::Receipts { receipts } => <Vec<Receipt>>::fits(receipts),
            ReplyModel::Error { message } => String::fits(message),
        }
    }

    open spec fn wire(v: ReplyModel) -> Seq<u8> {
        crate::wire::le32(reply_tag(v)) + reply_fields(v)
    }

    open spec fn parse(b: Seq<u8>) -> Option<(ReplyModel, Seq<u8>)> {
        match u32::parse(b) {
            Some((tag, after)) => parse_reply_fields(tag, after),
            None => None,
        }
    }

    proof fn lemma_reads_back(v: ReplyModel, rest: Seq<u8>) {
        let after = reply_fields(v) + rest;
        assert(Self::wire(v) + rest =~= crate::wire::le32(reply_tag(v)) + after);
        u32::lemma_reads_back(reply_tag(v), after);
        lemma_reply_fields_read_back(v, rest);
    }

    proof fn lemma_wrote(b: Seq<u8>) {
        u32::lemma_wrote(b);
        if let Some((tag, after)) = u32::parse(b) {
            lemma_reply_fields_wrote(tag, after);
            if let Some((m, rest)) = parse_reply_fields(tag, after) {
                assert(crate::wire::le32(tag) + (reply_fields(m) + rest) =~= Self::wire(m) + rest);
            }
        }
    }

    fn put(&self, out: &mut Vec<u8>) {
        match self {
            MailReply::Delivered { duplicate } => {
                0u32.put(out);
                duplicate.put(out);
            },
            MailReply::Drained { envelopes, cursor } => {
                1u32.put(out);
                envelopes.put(out);
                cursor.put(out);
            },
            MailReply::Page { envelopes, cursor, more } => {
                2u32.put(out);
                envelopes.put(out);
                cursor.put(out);
                more.put(out);
            },
            MailReply::Acked { removed } => {
                3u32.put(out);
                removed.put(out);
            },
            MailReply::ReceiptAccepted { duplicate } => {
                4u32.put(out);
                duplicate.put(out);
            },
            MailReply::Receipts { receipts } => {
                5u32.put(out);
                receipts.put(out);
            },
            MailReply::Error { message } => {
                6u32.put(out);
                message.put(out);
            },
        }
        assert(out@ =~= old(out)@ + Self::wire(self@));
    }

    fn get(bytes: &[u8]) -> (r: Option<(MailReply, usize)>) {
        let (tag, n): (u32, usize) = match u32::get(bytes) {
            Some(got) => got,
            None => return None,
        };
        let fields = slice_subrange(bytes, n, bytes.len());
        assert(fields@ =~= bytes@.skip(n as int));
        match read_reply_fields(tag, fields) {
            Some((reply, m)) => {
                assert(fields@.skip(m as int) =~= bytes@.skip(n + m));
                Some((reply, n + m))
            },
            None => None,
        }
    }
}

impl MailReply {
    /// The bytes of the reply.
    pub fn encode(&self) -> (r: Vec<u8>)
        ensures
            r@ == MailReply::wire(self@),
            MailReply::fits(self@),
    {
        let mut out: Vec<u8> = Vec::new();
        self.put(&mut out);
        assert(out@ =~= MailReply::wire(self@));
        out
    }

    /// The bytes of the reply; there is no reply that has none.
    pub fn try_encode(&self) -> (r: Result<Vec<u8>, MailError>)
        ensures
            r is Ok,
            r->Ok_0@ == MailReply::wire(self@),
            MailReply::fits(self@),
    {
        Ok(self.encode())
    }

    /// Reads a reply from its bytes.
    pub fn decode(bytes: &[u8]) -> (r: Result<MailReply, MailError>)
        ensures
            match MailReply::parse(bytes@) {
                Some((m, _)) => r is Ok && r->Ok_0@ == m,
                None => r == Err::<MailReply, MailError>(MailError::Malformed(Format::MailReply)),
            },
    {
        match MailReply::get(bytes) {
            Some((m, _)) => Ok(m),
            None => Err(MailError::Malformed(Format::MailReply)),
        }
    }
}

/// A reply reads back from its bytes as itself.
pub proof fn lemma_reply_round_trip(m: ReplyModel)
    requires
        MailReply::fits(m),
    ensures
        MailReply::parse(MailReply::wire(m)) == Some((m, Seq::<u8>::empty())),
{
    let none = Seq::<u8>::empty();
    assert(MailReply::wire(m) + none =~= MailReply::wire(m));
    MailReply::lemma_reads_back(m, none);
}

} // verus!
