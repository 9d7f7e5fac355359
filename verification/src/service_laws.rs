//! What holds of every request that a mailbox service handles.

use crate::envelope::EnvelopeModel;
use crate::error::{MailError, SignatureError};
use crate::mailbox::Accepted;
use crate::proto::{ReplyModel, RequestModel};
use crate::service::ServiceModel;
use vstd::prelude::*;

verus! {

/// A request that is answered with an error changes nothing.
pub proof fn lemma_error_changes_nothing(
    m: ServiceModel,
    requester: Seq<u8>,
    request: RequestModel,
    now: u64,
    gate: Result<(), Seq<char>>,
    outcome: Result<(), SignatureError>,
)
    requires
        crate::service::handled(m, requester, request, now, gate, outcome).1 is Error,
    ensures
        crate::service::handled(m, requester, request, now, gate, outcome).0 == m.store,
{
}

/// Reading changes nothing.
pub proof fn lemma_reading_changes_nothing(
    m: ServiceModel,
    requester: Seq<u8>,
    request: RequestModel,
    now: u64,
    gate: Result<(), Seq<char>>,
    outcome: Result<(), SignatureError>,
)
    requires
        request is Drain || request is DrainPage,
    ensures
        crate::service::handled(m, requester, request, now, gate, outcome).0 == m.store,
{
}

/// Who acts for somebody else without a grant that holds learns nothing and changes nothing: the
/// reply is an error with the authority's reason.
pub proof fn lemma_stranger_is_refused(
    m: ServiceModel,
    requester: Seq<u8>,
    request: RequestModel,
    now: u64,
    why: Seq<char>,
    outcome: Result<(), SignatureError>,
)
    requires
        !crate::service::hands_in(request),
        crate::envelope::node_id_of(crate::service::subject_of(request)) is Ok,
        crate::envelope::node_id_of(crate::service::subject_of(request))->Ok_0 != requester,
    ensures
        crate::service::handled(m, requester, request, now, Err(why), outcome) == (
            m.store,
            ReplyModel::Error { message: why },
        ),
{
}

/// Whoever acts for themself needs no grant: what the authority would say does not matter.
pub proof fn lemma_owner_needs_no_grant(
    m: ServiceModel,
    requester: Seq<u8>,
    request: RequestModel,
    now: u64,
    gate: Result<(), Seq<char>>,
    outcome: Result<(), SignatureError>,
)
    requires
        !crate::service::hands_in(request),
        crate::envelope::node_id_of(crate::service::subject_of(request)) == Ok::<
            Seq<u8>,
            crate::error::NodeIdError,
        >(requester),
    ensures
        !crate::service::gate_is_asked(m, requester, request),
        crate::service::handled(m, requester, request, now, gate, outcome)
            == crate::service::performed(m, request, now, outcome),
        crate::service::handled(m, requester, request, now, gate, outcome).1 !is Error,
{
}

/// A mailbox is no open relay and stores no forgery: handing something in changes it only if the
/// recipient granted the mailbox to accept, and the signature holds.
pub proof fn lemma_stored_only_with_grant_and_signature(
    m: ServiceModel,
    requester: Seq<u8>,
    request: RequestModel,
    now: u64,
    gate: Result<(), Seq<char>>,
    outcome: Result<(), SignatureError>,
)
    requires
        crate::service::hands_in(request),
        crate::service::handled(m, requester, request, now, gate, outcome).0 != m.store,
    ensures
        crate::service::gate_is_asked(m, requester, request),
        gate is Ok,
        crate::service::signature_is_asked(m, requester, request, gate),
        outcome is Ok,
        request matches RequestModel::Deliver { envelope, .. } ==> m.limits.exceeded(
            envelope,
        ) is None,
{
}

/// An envelope over the limits is refused before anything else is asked about it.
pub proof fn lemma_oversized_is_refused(
    m: ServiceModel,
    requester: Seq<u8>,
    envelope: EnvelopeModel,
    grant: Seq<u8>,
    now: u64,
    gate: Result<(), Seq<char>>,
    outcome: Result<(), SignatureError>,
    e: MailError,
)
    requires
        crate::envelope::node_id_of(envelope.body.to) is Ok,
        m.limits.exceeded(envelope) == Some(e),
    ensures
        crate::service::handled(
            m,
            requester,
            (RequestModel::Deliver { envelope, grant }),
            now,
            gate,
            outcome,
        ) == (m.store, crate::service::refusal(e)),
        !crate::service::gate_is_asked(
            m,
            requester,
            (RequestModel::Deliver { envelope, grant }),
        ),
{
}

/// No page is longer than the ceiling, whatever was asked for.
pub proof fn lemma_pages_are_bounded(
    m: ServiceModel,
    requester: Seq<u8>,
    request: RequestModel,
    now: u64,
    gate: Result<(), Seq<char>>,
    outcome: Result<(), SignatureError>,
)
    requires
        m.limits.max_page >= 1,
    ensures
        crate::service::handled(m, requester, request, now, gate, outcome).1 matches
            ReplyModel::Page { envelopes, .. } ==> envelopes.len() <= m.limits.max_page,
{
}

/// Handling a request keeps a mailbox tidy, whatever comes of it.
pub proof fn lemma_handling_keeps_tidy(
    m: ServiceModel,
    requester: Seq<u8>,
    request: RequestModel,
    now: u64,
    gate: Result<(), Seq<char>>,
    outcome: Result<(), SignatureError>,
)
    requires
        crate::mailbox_laws::tidy(m.store),
    ensures
        crate::mailbox_laws::tidy(
            crate::service::handled(m, requester, request, now, gate, outcome).0,
        ),
{
    match request {
        RequestModel::Deliver { envelope, .. } => {
            crate::mailbox_laws::lemma_accepting_keeps_tidy(m.store, envelope, now, outcome);
        },
        RequestModel::Ack { recipient, cursor, .. } => {
            crate::mailbox_laws::lemma_acking_keeps_tidy(m.store, recipient, cursor);
        },
        RequestModel::PutReceipt { for_sender, receipt, .. } => {
            crate::mailbox_laws::lemma_depositing_keeps_tidy(
                m.store,
                for_sender,
                receipt,
                outcome,
            );
        },
        RequestModel::CollectReceipts { sender, .. } => {
            crate::mailbox_laws::lemma_collecting_keeps_tidy(m.store, sender);
        },
        _ => {},
    }
}

/// Store and forward: an envelope that was delivered and is new is the last of those that the
/// recipient then reads, whoever delivered it and whatever time passes.
pub proof fn lemma_delivered_is_read(
    m: ServiceModel,
    sender: Seq<u8>,
    envelope: EnvelopeModel,
    grant: Seq<u8>,
    now: u64,
    gate: Result<(), Seq<char>>,
    outcome: Result<(), SignatureError>,
    own_grant: Seq<u8>,
    later: u64,
    later_gate: Result<(), Seq<char>>,
    later_outcome: Result<(), SignatureError>,
)
    requires
        m.store.capacity >= 1,
        crate::service::handled(
            m,
            sender,
            (RequestModel::Deliver { envelope, grant }),
            now,
            gate,
            outcome,
        ).1 == (ReplyModel::Delivered { duplicate: false }),
    ensures
        ({
            let after = ServiceModel {
                store: crate::service::handled(
                    m,
                    sender,
                    (RequestModel::Deliver { envelope, grant }),
                    now,
                    gate,
                    outcome,
                ).0,
                limits: m.limits,
            };
            let recipient = crate::envelope::node_id_of(envelope.body.to)->Ok_0;
            let drain = RequestModel::Drain {
                recipient: envelope.body.to,
                since: 0,
                grant: own_grant,
            };
            crate::service::handled(after, recipient, drain, later, later_gate, later_outcome).1
                matches ReplyModel::Drained { envelopes, .. } && envelopes.len() > 0
                && envelopes.last() == envelope
        }),
{
    let s = m.store;
    assert(s.accepting(envelope, now, outcome).1 == Ok::<Accepted, MailError>(Accepted::Stored));
    assert(outcome is Ok);
    crate::mailbox_laws::lemma_stored_is_kept_within_capacity(s, envelope, now);
}

} // verus!
