//! The mailbox service: requests turned into what a mailbox does and replies.

use crate::digest::NodeId;
use crate::envelope::{parse_node_id, Envelope, EnvelopeModel};
use crate::error::{MailError, NodeIdError, SignatureError};
use crate::limits::Limits;
use crate::mailbox::{ask_gate, Accepted, MailboxStore, StoreModel, StoredEnvelope, StoredModel};
use crate::proto::{Grant, MailReply, MailRequest, ReplyModel, RequestModel};
use crate::receipt::Receipt;
use crate::text::same_bytes;
use vstd::prelude::*;

verus! {

/// A service over a mailbox, with the limits that it enforces.
pub struct MailService {
    store: MailboxStore,
    limits: Limits,
}

/// A service as mathematical values.
#[verifier::ext_equal]
pub struct ServiceModel {
    pub store: StoreModel,
    pub limits: Limits,
}

impl View for MailService {
    type V = ServiceModel;

    closed spec fn view(&self) -> ServiceModel {
        ServiceModel { store: self.store@, limits: self.limits }
    }
}

/// The envelopes without the times at which they were stored.
pub open spec fn envelopes_in(q: Seq<StoredModel>) -> Seq<EnvelopeModel> {
    Seq::new(q.len(), |i: int| q[i].envelope)
}

/// The reply that refuses a request because a name in it is no node id.
pub open spec fn bad_name(what: Seq<char>, e: NodeIdError) -> ReplyModel {
    ReplyModel::Error { message: what + e.text() }
}

/// The reply that refuses a request because of `e`.
pub open spec fn refusal(e: MailError) -> ReplyModel {
    ReplyModel::Error { message: e.text() }
}

/// The reply to what was handed in.
pub open spec fn delivery_reply(r: Result<Accepted, MailError>) -> ReplyModel {
    match r {
        Ok(a) => ReplyModel::Delivered { duplicate: a == Accepted::Duplicate },
        Err(e) => refusal(e),
    }
}

/// The reply to a receipt that was handed in.
pub open spec fn deposit_reply(r: Result<Accepted, MailError>) -> ReplyModel {
    match r {
        Ok(a) => ReplyModel::ReceiptAccepted { duplicate: a == Accepted::Duplicate },
        Err(e) => refusal(e),
    }
}

/// The reply that refuses a request because the mailbox may not accept for the node.
pub open spec fn no_grant(why: Seq<char>) -> ReplyModel {
    ReplyModel::Error {
        message: "mailbox not authorized to accept mail for recipient: "@ + why,
    }
}

/// The number of envelopes that a page may hold: the limit clamped to the ceiling, and one if the
/// ceiling is zero.
pub open spec fn page_limit(limits: Limits, limit: usize) -> usize {
    if limits.max_page < 1 {
        1
    } else {
        limits.page(limit)
    }
}

/// The name of the node whose inbox or receipts a request concerns.
pub open spec fn subject_of(request: RequestModel) -> Seq<char> {
    match request {
        RequestModel::Deliver { envelope, grant } => envelope.body.to,
        RequestModel::Drain { recipient, since, grant } => recipient,
        RequestModel::Ack { recipient, cursor, grant } => recipient,
        RequestModel::DrainPage { recipient, since, limit, grant } => recipient,
        RequestModel::PutReceipt { for_sender, receipt, grant } => for_sender,
        RequestModel::CollectReceipts { sender, grant } => sender,
    }
}

/// Whether the request hands something in, as opposed to reading or removing.
pub open spec fn hands_in(request: RequestModel) -> bool {
    request is Deliver || request is PutReceipt
}

/// Who must hold the grant: the mailbox to accept what is handed in, the requester to act for
/// somebody else.
pub open spec fn presenter(m: ServiceModel, requester: Seq<u8>, request: RequestModel) -> Seq<u8> {
    if hands_in(request) {
        m.store.self_id
    } else {
        requester
    }
}

/// Whether the grant of the request is checked: always when something is handed in, unless it is
/// too large, and otherwise when the requester acts for somebody else.
pub open spec fn gate_is_asked(
    m: ServiceModel,
    requester: Seq<u8>,
    request: RequestModel,
) -> bool {
    match crate::envelope::node_id_of(subject_of(request)) {
        Err(_) => false,
        Ok(id) => match request {
            RequestModel::Deliver { envelope, grant } => m.limits.exceeded(envelope) is None,
            RequestModel::PutReceipt { for_sender, receipt, grant } => true,
            _ => requester != id,
        },
    }
}

/// Whether the signature of what is handed in is checked.
pub open spec fn signature_is_asked(
    m: ServiceModel,
    requester: Seq<u8>,
    request: RequestModel,
    gate: Result<(), Seq<char>>,
) -> bool {
    hands_in(request) && gate_is_asked(m, requester, request) && gate is Ok
}

/// Whether `outcome` can be what `check` makes of the signature of what is handed in.
pub open spec fn signature_says<F: Fn(&NodeId, &[u8], &[u8; 64]) -> bool>(
    check: F,
    request: RequestModel,
    outcome: Result<(), SignatureError>,
) -> bool {
    match request {
        RequestModel::Deliver { envelope, grant } => crate::envelope::verified_as(
            check,
            envelope.body.from,
            crate::envelope::signing_bytes(envelope.body),
            envelope.sig,
            outcome,
        ),
        RequestModel::PutReceipt { for_sender, receipt, grant } => crate::envelope::verified_as(
            check,
            receipt.body.by,
            crate::receipt::receipt_message(receipt.body),
            receipt.sig,
            outcome,
        ),
        _ => true,
    }
}

/// What the request does to the mailbox and what the reply is, once the name in it is a node id and
/// the grant is in order.
pub open spec fn performed(
    m: ServiceModel,
    request: RequestModel,
    now: u64,
    outcome: Result<(), SignatureError>,
) -> (StoreModel, ReplyModel) {
    let s = m.store;
    match request {
        RequestModel::Deliver { envelope, grant } => {
            let (after, r) = s.accepting(envelope, now, outcome);
            (after, delivery_reply(r))
        },
        RequestModel::Drain { recipient, since, grant } => {
            let (q, cursor) = s.reading(recipient, since);
            (s, ReplyModel::Drained { envelopes: envelopes_in(q), cursor })
        },
        RequestModel::Ack { recipient, cursor, grant } => (
            s.acking(recipient, cursor),
            ReplyModel::Acked { removed: s.acked(recipient, cursor) },
        ),
        RequestModel::DrainPage { recipient, since, limit, grant } => {
            let (q, cursor, more) = s.paging(recipient, since, page_limit(m.limits, limit));
            (s, ReplyModel::Page { envelopes: envelopes_in(q), cursor, more })
        },
        RequestModel::PutReceipt { for_sender, receipt, grant } => {
            let (after, r) = s.depositing(for_sender, receipt, outcome);
            (after, deposit_reply(r))
        },
        RequestModel::CollectReceipts { sender, grant } => (
            s.collecting(sender),
            ReplyModel::Receipts { receipts: crate::mailbox::queue_of(s.receipts, sender) },
        ),
    }
}

/// How a request names the node it concerns when that is no node id.
pub open spec fn name_complaint(request: RequestModel) -> Seq<char> {
    match request {
        RequestModel::PutReceipt { for_sender, receipt, grant } => "bad sender: "@,
        RequestModel::CollectReceipts { sender, grant } => "bad sender: "@,
        _ => "bad recipient: "@,
    }
}

/// The reply that refuses the request, if it is refused before it is looked into further: because
/// the name in it is no node id, because what is handed in is too large, or because the authority,
/// where it is asked, does not answer `gate` with a yes.
pub open spec fn refused(
    m: ServiceModel,
    requester: Seq<u8>,
    request: RequestModel,
    gate: Result<(), Seq<char>>,
) -> Option<ReplyModel> {
    let too_large = match request {
        RequestModel::Deliver { envelope, grant } => m.limits.exceeded(envelope),
        _ => None,
    };
    match (crate::envelope::node_id_of(subject_of(request)), too_large, gate) {
        (Err(e), _, _) => Some(bad_name(name_complaint(request), e)),
        (Ok(_), Some(e), _) => Some(refusal(e)),
        (Ok(_), None, Err(why)) => if !gate_is_asked(m, requester, request) {
            None
        } else if hands_in(request) {
            Some(no_grant(why))
        } else {
            Some(ReplyModel::Error { message: why })
        },
        (Ok(_), None, Ok(_)) => None,
    }
}

/// What handling a request from `requester` at the time `now` does to the mailbox and what the
/// reply is, when the authority answers `gate` and the check of the signature comes out as
/// `outcome`.
pub open spec fn handled(
    m: ServiceModel,
    requester: Seq<u8>,
    request: RequestModel,
    now: u64,
    gate: Result<(), Seq<char>>,
    outcome: Result<(), SignatureError>,
) -> (StoreModel, ReplyModel) {
    match refused(m, requester, request, gate) {
        Some(reply) => (m.store, reply),
        None => performed(m, request, now, outcome),
    }
}

/// The reply that refuses a request because a name in it is no node id.
fn refuse_name(what: &str, e: NodeIdError) -> (r: MailReply)
    ensures
        r@ == bad_name(what@, e),
{
    let mut message: String = what.to_owned();
    message.append(e.message());
    MailReply::Error { message }
}

/// The reply that refuses a request because of `e`.
fn refuse(e: MailError) -> (r: MailReply)
    ensures
        r@ == refusal(e),
{
    MailReply::Error { message: e.message() }
}

/// The node that `name` names, or the reply that refuses the request.
fn name_or_refuse(what: &str, name: &str) -> (r: Result<NodeId, MailReply>)
    ensures
        match crate::envelope::node_id_of(name@) {
            Ok(id) => r is Ok && r->Ok_0@ == id,
            Err(e) => r is Err && r->Err_0@ == bad_name(what@, e),
        },
{
    match parse_node_id(name) {
        Ok(id) => Ok(id),
        Err(MailError::NodeId(e)) => Err(refuse_name(what, e)),
        Err(e) => Err(refuse(e)),
    }
}

/// The envelopes without the times at which they were stored.
fn strip_times(stored: Vec<StoredEnvelope>) -> (r: Vec<Envelope>)
    ensures
        r.deep_view() == envelopes_in(stored.deep_view()),
{
    let ghost q = stored.deep_view();
    let mut out: Vec<Envelope> = Vec::new();
    for s in it: stored
        invariant
            it.seq() == stored@,
            q == stored.deep_view(),
            out@.len() == it.index(),
            forall|k: int| 0 <= k < out@.len() ==> (#[trigger] out@[k])@ == q[k].envelope,
    {
        out.push(s.envelope);
    }
    assert(out.deep_view() =~= envelopes_in(q));
    out
}

impl MailService {
    /// Whether the mailbox is in order.
    pub closed spec fn wf(&self) -> bool {
        self.store.wf()
    }

    /// A service over `store` with the default limits.
    pub fn new(store: MailboxStore) -> (r: MailService)
        requires
            store.wf(),
        ensures
            r.wf(),
            r@ == (ServiceModel { store: store@, limits: crate::limits::default_limits() }),
    {
        MailService { store, limits: Limits::default() }
    }

    /// A service over `store` with the given limits.
    pub fn with_limits(store: MailboxStore, limits: Limits) -> (r: MailService)
        requires
            store.wf(),
        ensures
            r.wf(),
            r@ == (ServiceModel { store: store@, limits }),
    {
        MailService { store, limits }
    }

    /// The limits that the service enforces.
    pub fn limits(&self) -> (r: &Limits)
        ensures
            *r == self@.limits,
    {
        &self.limits
    }

    /// The mailbox.
    pub fn store(&self) -> (r: &MailboxStore)
        requires
            self.wf(),
        ensures
            r.wf(),
            r@ == self@.store,
    {
        &self.store
    }

    /// The mailbox, to be changed.
    pub fn store_mut(&mut self) -> (r: &mut MailboxStore)
        requires
            old(self).wf(),
        ensures
            r.wf(),
            r@ == old(self)@.store,
            final(self).wf() == final(r).wf(),
            final(self)@ == (ServiceModel { store: final(r)@, limits: old(self)@.limits }),
    {
        &mut self.store
    }

    /// Asks the authority whether the grant lets `requester` act for `recipient`.
    fn gate_delegate<G: Fn(&NodeId, &NodeId, &str, &Grant, u64) -> Result<(), String>>(
        &self,
        recipient: &NodeId,
        requester: &NodeId,
        grant: &Grant,
        now: u64,
        authorize: &G,
    ) -> (r: Result<(), String>)
        requires
            crate::mailbox::can_authorize(*authorize),
        ensures
            crate::mailbox::gate_says(
                *authorize,
                recipient@,
                requester@,
                grant@,
                now,
                crate::mailbox::answer_view(r),
            ),
    {
        ask_gate(authorize, recipient, requester, grant, now)
    }

    /// Whether the request may go on, or the reply that refuses it: the name in it must be a node
    /// id, an envelope must be within the limits, and there must be a grant for the mailbox if
    /// something is handed in, or for a requester who acts for somebody else.
    fn let_in<G: Fn(&NodeId, &NodeId, &str, &Grant, u64) -> Result<(), String>>(
        &self,
        requester: &NodeId,
        request: &MailRequest,
        now: u64,
        authorize: &G,
    ) -> (r: Result<(), MailReply>)
        requires
            crate::mailbox::can_authorize(*authorize),
        ensures
            exists|gate: Result<(), Seq<char>>| #[trigger]
                authority_may_say(*authorize, self@, requester@, request@, now, gate)
                    && lets_in_as(refused(self@, requester@, request@, gate), r),
    {
        let ghost asked = request@;
        let ghost fine: Result<(), Seq<char>> = Ok(());
        let (name, what) = match request {
            MailRequest::Deliver { envelope, .. } => (&envelope.body.to, "bad recipient: "),
            MailRequest::Drain { recipient, .. } => (recipient, "bad recipient: "),
            MailRequest::Ack { recipient, .. } => (recipient, "bad recipient: "),
            MailRequest::DrainPage { recipient, .. } => (recipient, "bad recipient: "),
            MailRequest::PutReceipt { for_sender, .. } => (for_sender, "bad sender: "),
            MailRequest::CollectReceipts { sender, .. } => (sender, "bad sender: "),
        };
        let id: NodeId = match name_or_refuse(what, name.as_str()) {
            Ok(id) => id,
            Err(reply) => {
                assert(authority_may_say(*authorize, self@, requester@, asked, now, fine));
                return Err(reply);
            },
        };
        if let MailRequest::Deliver { envelope, .. } = request {
            match self.limits.check_envelope(envelope) {
                Ok(_) => {},
                Err(e) => {
                    assert(authority_may_say(*authorize, self@, requester@, asked, now, fine));
                    return Err(refuse(e));
                },
            }
        }
        match request {
            MailRequest::Deliver { .. } | MailRequest::PutReceipt { .. } => {
                let granted = self.store.check_accept_grant(&id, request.grant(), now, authorize);
                let ghost gate = choose|out: Result<(), Seq<char>>| #[trigger]
                    crate::mailbox::gate_says(
                        *authorize,
                        id@,
                        self@.store.self_id,
                        crate::proto::request_grant(asked),
                        now,
                        out,
                    ) && crate::mailbox::is_passed_on(out, granted);
                assert(authority_may_say(*authorize, self@, requester@, asked, now, gate));
                match granted {
                    Ok(_) => Ok(()),
                    Err(e) => Err(refuse(e)),
                }
            },
            _ => {
                if same_bytes(requester.as_slice(), id.as_slice()) {
                    assert(authority_may_say(*authorize, self@, requester@, asked, now, fine));
                    return Ok(());
                }
                let answer = self.gate_delegate(&id, requester, request.grant(), now, authorize);
                let ghost gate = crate::mailbox::answer_view(answer);
                assert(authority_may_say(*authorize, self@, requester@, asked, now, gate));
                match answer {
                    Ok(_) => Ok(()),
                    Err(message) => Err(MailReply::Error { message }),
                }
            },
        }
    }

    /// Delivers an envelope.
    fn handle_deliver<F: Fn(&NodeId, &[u8], &[u8; 64]) -> bool>(
        &mut self,
        envelope: Envelope,
        now: u64,
        check: &F,
    ) -> (r: MailReply)
        requires
            old(self).wf(),
            crate::envelope::can_check(*check),
        ensures
            final(self).wf(),
            final(self)@.limits == old(self)@.limits,
            exists|outcome: Result<(), SignatureError>| #[trigger]
                crate::envelope::verified_as(
                    *check,
                    envelope@.body.from,
                    crate::envelope::signing_bytes(envelope@.body),
                    envelope@.sig,
                    outcome,
                ) && final(self)@.store == old(self)@.store.accepting(envelope@, now, outcome).0
                    && r@ == delivery_reply(
                    old(self)@.store.accepting(envelope@, now, outcome).1,
                ),
    {
        match self.store.accept(envelope, now, check) {
            Ok(Accepted::Stored) => MailReply::Delivered { duplicate: false },
            Ok(Accepted::Duplicate) => MailReply::Delivered { duplicate: true },
            Err(e) => refuse(e),
        }
    }

    /// Reads an inbox.
    fn handle_drain(&self, recipient: &str, since: usize) -> (r: MailReply)
        requires
            self.wf(),
        ensures
            r@ == (ReplyModel::Drained {
                envelopes: envelopes_in(self@.store.reading(recipient@, since).0),
                cursor: self@.store.reading(recipient@, since).1,
            }),
    {
        let (stored, cursor) = self.store.read_from(recipient, since);
        MailReply::Drained { envelopes: strip_times(stored), cursor }
    }

    /// Acknowledges.
    fn handle_ack(&mut self, recipient: &str, cursor: usize) -> (r: MailReply)
        requires
            old(self).wf(),
        ensures
            final(self).wf(),
            final(self)@.limits == old(self)@.limits,
            final(self)@.store == old(self)@.store.acking(recipient@, cursor),
            r@ == (ReplyModel::Acked { removed: old(self)@.store.acked(recipient@, cursor) }),
    {
        MailReply::Acked { removed: self.store.ack(recipient, cursor) }
    }

    /// Reads a page of an inbox.
    fn handle_drain_page(&self, recipient: &str, since: usize, limit: usize) -> (r: MailReply)
        requires
            self.wf(),
        ensures
            ({
                let (q, cursor, more) = self@.store.paging(
                    recipient@,
                    since,
                    page_limit(self@.limits, limit),
                );
                r@ == (ReplyModel::Page { envelopes: envelopes_in(q), cursor, more })
            }),
    {
        let step: usize = if self.limits.max_page < 1 {
            1
        } else {
            self.limits.clamp_page(limit)
        };
        let (stored, cursor, more) = self.store.read_page(recipient, since, step);
        MailReply::Page { envelopes: strip_times(stored), cursor, more }
    }

    /// Deposits a receipt.
    fn handle_put_receipt<F: Fn(&NodeId, &[u8], &[u8; 64]) -> bool>(
        &mut self,
        for_sender: &str,
        receipt: Receipt,
        check: &F,
    ) -> (r: MailReply)
        requires
            old(self).wf(),
            crate::envelope::can_check(*check),
        ensures
            final(self).wf(),
            final(self)@.limits == old(self)@.limits,
            exists|outcome: Result<(), SignatureError>| #[trigger]
                crate::envelope::verified_as(
                    *check,
                    receipt@.body.by,
                    crate::receipt::receipt_message(receipt@.body),
                    receipt@.sig,
                    outcome,
                ) && final(self)@.store == old(self)@.store.depositing(
                    for_sender@,
                    receipt@,
                    outcome,
                ).0 && r@ == deposit_reply(
                    old(self)@.store.depositing(for_sender@, receipt@, outcome).1,
                ),
    {
        match self.store.put_receipt(for_sender, receipt, check) {
            Ok(Accepted::Stored) => MailReply::ReceiptAccepted { duplicate: false },
            Ok(Accepted::Duplicate) => MailReply::ReceiptAccepted { duplicate: true },
            Err(e) => refuse(e),
        }
    }

    /// Collects receipts.
    fn handle_collect(&mut self, sender: &str) -> (r: MailReply)
        requires
            old(self).wf(),
        ensures
            final(self).wf(),
            final(self)@.limits == old(self)@.limits,
            final(self)@.store == old(self)@.store.collecting(sender@),
            r@ == (ReplyModel::Receipts {
                receipts: crate::mailbox::queue_of(old(self)@.store.receipts, sender@),
            }),
    {
        MailReply::Receipts { receipts: self.store.collect_receipts(sender) }
    }

    /// Does what a request asks for that was let in.
    fn perform<F: Fn(&NodeId, &[u8], &[u8; 64]) -> bool>(
        &mut self,
        request: MailRequest,
        now: u64,
        check: &F,
    ) -> (r: MailReply)
        requires
            old(self).wf(),
            crate::envelope::can_check(*check),
        ensures
            final(self).wf(),
            final(self)@.limits == old(self)@.limits,
            exists|outcome: Result<(), SignatureError>| #[trigger]
                signature_says(*check, request@, outcome) && (final(self)@.store, r@) == performed(
                    old(self)@,
                    request@,
                    now,
                    outcome,
                ),
    {
        let ghost m = self@;
        let ghost asked = request@;
        let reply = match request {
            MailRequest::Deliver { envelope, .. } => self.handle_deliver(envelope, now, check),
            MailRequest::Drain { recipient, since, .. } => self.handle_drain(
                recipient.as_str(),
                since,
            ),
            MailRequest::Ack { recipient, cursor, .. } => self.handle_ack(
                recipient.as_str(),
                cursor,
            ),
            MailRequest::DrainPage { recipient, since, limit, .. } => self.handle_drain_page(
                recipient.as_str(),
                since,
                limit,
            ),
            MailRequest::PutReceipt { for_sender, receipt, .. } => self.handle_put_receipt(
                for_sender.as_str(),
                receipt,
                check,
            ),
            MailRequest::CollectReceipts { sender, .. } => self.handle_collect(sender.as_str()),
        };
        proof {
            let outcome = match asked {
                RequestModel::Deliver { envelope, grant } => choose|outcome: Result<
                    (),
                    SignatureError,
                >| #[trigger]
                    crate::envelope::verified_as(
                        *check,
                        envelope.body.from,
                        crate::envelope::signing_bytes(envelope.body),
                        envelope.sig,
                        outcome,
                    ) && (self@.store, reply@) == performed(m, asked, now, outcome),
                RequestModel::PutReceipt { for_sender, receipt, grant } => choose|outcome: Result<
                    (),
                    SignatureError,
                >| #[trigger]
                    crate::envelope::verified_as(
                        *check,
                        receipt.body.by,
                        crate::receipt::receipt_message(receipt.body),
                        receipt.sig,
                        outcome,
                    ) && (self@.store, reply@) == performed(m, asked, now, outcome),
                _ => Ok(()),
            };
            assert(signature_says(*check, asked, outcome));
        }
        reply
    }

    /// Handles a request of the node `requester` at the time `now`. `authorize` checks grants and
    /// `check` checks signatures. Every failure becomes an error reply.
    pub fn handle<
        G: Fn(&NodeId, &NodeId, &str, &Grant, u64) -> Result<(), String>,
        F: Fn(&NodeId, &[u8], &[u8; 64]) -> bool,
    >(
        &mut self,
        requester: &NodeId,
        request: MailRequest,
        now: u64,
        authorize: &G,
        check: &F,
    ) -> (r: MailReply)
        requires
            old(self).wf(),
            crate::mailbox::can_authorize(*authorize),
            crate::envelope::can_check(*check),
        ensures
            final(self).wf(),
            final(self)@.limits == old(self)@.limits,
            answers(
                *authorize,
                *check,
                old(self)@,
                requester@,
                request@,
                now,
                final(self)@.store,
                r@,
            ),
    {
        let ghost m = self@;
        let ghost asked = request@;
        let ghost mut outcome: Result<(), SignatureError> = Ok(());
        let entry = self.let_in(requester, &request, now, authorize);
        let ghost gate = choose|gate: Result<(), Seq<char>>| #[trigger]
            authority_may_say(*authorize, m, requester@, asked, now, gate) && lets_in_as(
                refused(m, requester@, asked, gate),
                entry,
            );
        let reply = match entry {
            Err(reply) => reply,
            Ok(_) => {
                let reply = self.perform(request, now, check);
                proof {
                    outcome = choose|outcome: Result<(), SignatureError>| #[trigger]
                        signature_says(*check, asked, outcome) && (self@.store, reply@)
                            == performed(m, asked, now, outcome);
                }
                reply
            },
        };
        assert(answers_with(
            *authorize,
            *check,
            m,
            requester@,
            asked,
            now,
            self@.store,
            reply@,
            gate,
            outcome,
        ));
        reply
    }
}

/// Whether `r` lets a request go on exactly when there is no reply `reply` that refuses it.
pub open spec fn lets_in_as(reply: Option<ReplyModel>, r: Result<(), MailReply>) -> bool {
    match reply {
        Some(reply) => r is Err && r->Err_0@ == reply,
        None => r is Ok,
    }
}

/// Whether the authority can answer `gate`, as far as the request makes the service ask it.
pub open spec fn authority_may_say<
    G: Fn(&NodeId, &NodeId, &str, &Grant, u64) -> Result<(), String>,
>(
    authorize: G,
    m: ServiceModel,
    requester: Seq<u8>,
    request: RequestModel,
    now: u64,
    gate: Result<(), Seq<char>>,
) -> bool {
    gate_is_asked(m, requester, request) ==> crate::mailbox::gate_says(
        authorize,
        crate::envelope::node_id_of(subject_of(request))->Ok_0,
        presenter(m, requester, request),
        crate::proto::request_grant(request),
        now,
        gate,
    )
}

/// Whether the authority can answer `gate` and the check can come out as `outcome`, as far as the
/// request makes the service ask them.
pub open spec fn may_say<
    G: Fn(&NodeId, &NodeId, &str, &Grant, u64) -> Result<(), String>,
    F: Fn(&NodeId, &[u8], &[u8; 64]) -> bool,
>(
    authorize: G,
    check: F,
    m: ServiceModel,
    requester: Seq<u8>,
    request: RequestModel,
    now: u64,
    gate: Result<(), Seq<char>>,
    outcome: Result<(), SignatureError>,
) -> bool {
    &&& authority_may_say(authorize, m, requester, request, now, gate)
    &&& signature_is_asked(m, requester, request, gate) ==> signature_says(
        check,
        request,
        outcome,
    )
}

/// Whether `after` and `reply` are what handling the request gives, with these answers of the
/// authority and of the check.
pub open spec fn answers_with<
    G: Fn(&NodeId, &NodeId, &str, &Grant, u64) -> Result<(), String>,
    F: Fn(&NodeId, &[u8], &[u8; 64]) -> bool,
>(
    authorize: G,
    check: F,
    m: ServiceModel,
    requester: Seq<u8>,
    request: RequestModel,
    now: u64,
    after: StoreModel,
    reply: ReplyModel,
    gate: Result<(), Seq<char>>,
    outcome: Result<(), SignatureError>,
) -> bool {
    &&& (after, reply) == handled(m, requester, request, now, gate, outcome)
    &&& may_say(authorize, check, m, requester, request, now, gate, outcome)
}

/// Whether `after` and `reply` can be what handling the request gives.
pub open spec fn answers<
    G: Fn(&NodeId, &NodeId, &str, &Grant, u64) -> Result<(), String>,
    F: Fn(&NodeId, &[u8], &[u8; 64]) -> bool,
>(
    authorize: G,
    check: F,
    m: ServiceModel,
    requester: Seq<u8>,
    request: RequestModel,
    now: u64,
    after: StoreModel,
    reply: ReplyModel,
) -> bool {
    exists|gate: Result<(), Seq<char>>, outcome: Result<(), SignatureError>| #[trigger]
        answers_with(
            authorize,
            check,
            m,
            requester,
            request,
            now,
            after,
            reply,
            gate,
            outcome,
        )
}

} // verus!
