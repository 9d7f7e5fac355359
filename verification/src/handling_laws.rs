//! What a mailbox service answers, said of calls and what they give.

use crate::digest::NodeId;
use crate::envelope::{parse_node_id, Envelope};
use crate::error::MailError;
use crate::limits::Limits;
use crate::mailbox::{Accepted, MailboxStore, StoredEnvelope};
use crate::proto::{Grant, MailReply, MailRequest};
use crate::receipt::Receipt;
use crate::service::MailService;
use vstd::prelude::*;

verus! {

/// The name of the node whose mail or receipts the request is about.
pub open spec fn about(request: MailRequest) -> Seq<char> {
    match request {
        MailRequest::Deliver { envelope, .. } => envelope.body.to@,
        MailRequest::Drain { recipient, .. } => recipient@,
        MailRequest::Ack { recipient, .. } => recipient@,
        MailRequest::DrainPage { recipient, .. } => recipient@,
        MailRequest::PutReceipt { for_sender, .. } => for_sender@,
        MailRequest::CollectReceipts { sender, .. } => sender@,
    }
}

/// The grant that the request shows.
pub open spec fn shown(request: MailRequest) -> Seq<u8> {
    match request {
        MailRequest::Deliver { grant, .. } => grant.chain@,
        MailRequest::Drain { grant, .. } => grant.chain@,
        MailRequest::Ack { grant, .. } => grant.chain@,
        MailRequest::DrainPage { grant, .. } => grant.chain@,
        MailRequest::PutReceipt { grant, .. } => grant.chain@,
        MailRequest::CollectReceipts { grant, .. } => grant.chain@,
    }
}

/// Whether the request is about the inbox or the receipts of a node, for the node or its delegate to
/// ask.
pub open spec fn is_for_owner(request: MailRequest) -> bool {
    !(request is Deliver) && !(request is PutReceipt)
}

/// Whom the authority is asked about: the requester, if the request is for the owner to make, and the
/// mailbox's own node, if something is handed in.
pub open spec fn asked_about(requester: NodeId, mailbox: Seq<u8>, request: MailRequest) -> Seq<u8> {
    if is_for_owner(request) {
        requester@
    } else {
        mailbox
    }
}

/// Whether the authority can only answer so when asked about the request: about the requester, if the
/// request is for the owner to make, and about the mailbox's own node, if something is handed in.
pub open spec fn authority_says<
    G: Fn(&NodeId, &NodeId, &str, &Grant, u64) -> Result<(), String>,
>(
    authorize: G,
    owner: NodeId,
    requester: NodeId,
    mailbox: Seq<u8>,
    request: MailRequest,
    now: u64,
    ok: bool,
) -> bool {
    crate::store_laws::authority_only_says(
        authorize,
        owner@,
        asked_about(requester, mailbox, request),
        shown(request),
        now,
        ok,
    )
}

/// A request about a name that is no node id is refused, and changes nothing.
pub proof fn lemma_no_name_no_service<
    G: Fn(&NodeId, &NodeId, &str, &Grant, u64) -> Result<(), String>,
    F: Fn(&NodeId, &[u8], &[u8; 64]) -> bool,
>(
    v: &mut MailService,
    requester: &NodeId,
    request: MailRequest,
    now: u64,
    authorize: &G,
    check: &F,
    name: &str,
    key: Result<NodeId, MailError>,
    why: String,
    r: MailReply,
)
    requires
        call_ensures(
            MailService::handle::<G, F>,
            (v, requester, request, now, authorize, check),
            r,
        ),
        name@ == about(request),
        call_ensures(parse_node_id, (name,), key),
        key is Err,
        call_ensures(MailError::message, (&key->Err_0,), why),
    ensures
        final(v)@ == old(v)@,
        r matches MailReply::Error { message } && message@ == (if request is PutReceipt
            || request is CollectReceipts {
            "bad sender: "@
        } else {
            "bad recipient: "@
        }) + why@,
{
    lemma_view_is_kept(request, r);
}

proof fn lemma_view_is_kept(request: MailRequest, r: MailReply)
    ensures
        crate::service::subject_of(request@) == about(request),
        crate::proto::request_grant(request@) == shown(request),
        crate::service::hands_in(request@) == !is_for_owner(request),
        r is Error == r@ is Error,
{
}

/// A request for the owner that somebody else makes, and what is handed in for somebody, is refused
/// where the authority can only refuse, with the authority's reason, and changes nothing. An envelope
/// that the limits do not let through is refused before that.
pub proof fn lemma_stranger_gets_nothing<
    G: Fn(&NodeId, &NodeId, &str, &Grant, u64) -> Result<(), String>,
    F: Fn(&NodeId, &[u8], &[u8; 64]) -> bool,
>(
    v: &mut MailService,
    requester: &NodeId,
    request: MailRequest,
    now: u64,
    authorize: &G,
    check: &F,
    name: &str,
    key: Result<NodeId, MailError>,
    r: MailReply,
)
    requires
        call_ensures(
            MailService::handle::<G, F>,
            (v, requester, request, now, authorize, check),
            r,
        ),
        name@ == about(request),
        call_ensures(parse_node_id, (name,), key),
        key is Ok,
        is_for_owner(request) ==> requester@ != key->Ok_0@,
        request matches MailRequest::Deliver { envelope, .. } ==> call_ensures(
            Limits::check_envelope,
            (&old(v)@.limits, &envelope),
            Ok::<(), MailError>(()),
        ),
        authority_says(
            *authorize,
            key->Ok_0,
            *requester,
            old(v)@.store.self_id,
            request,
            now,
            false,
        ),
    ensures
        final(v)@ == old(v)@,
        r matches MailReply::Error { message } && exists|why: Seq<char>| #[trigger]
            refuses_with(
                *authorize,
                key->Ok_0,
                asked_about(*requester, old(v)@.store.self_id, request),
                shown(request),
                now,
                why,
            ) && message@ == if is_for_owner(request) {
                why
            } else {
                "mailbox not authorized to accept mail for recipient: "@ + why
            },
{
    lemma_view_is_kept(request, r);
    let node = asked_about(*requester, old(v)@.store.self_id, request);
    let (gate, outcome) = choose|
        gate: Result<(), Seq<char>>,
        outcome: Result<(), crate::error::SignatureError>,
    | #[trigger]
        crate::service::answers_with(
            *authorize,
            *check,
            old(v)@,
            requester@,
            request@,
            now,
            final(v)@.store,
            r@,
            gate,
            outcome,
        );
    if let MailRequest::Deliver { envelope, .. } = request {
        assert(old(v)@.limits.exceeded(envelope@) is None);
    }
    assert(crate::mailbox::gate_says(
        *authorize,
        key->Ok_0@,
        node,
        shown(request),
        now,
        gate,
    ));
    assert(gate is Err);
    assert(refuses_with(*authorize, key->Ok_0, node, shown(request), now, gate->Err_0));
}

/// Whether the authority can refuse for this reason.
pub open spec fn refuses_with<
    G: Fn(&NodeId, &NodeId, &str, &Grant, u64) -> Result<(), String>,
>(
    authorize: G,
    owner: NodeId,
    node: Seq<u8>,
    chain: Seq<u8>,
    now: u64,
    why: Seq<char>,
) -> bool {
    exists|n: &NodeId, p: &NodeId, a: &str, g: &Grant, o: Result<(), String>|
        n@ == owner@ && p@ == node && a@ == "mail:accept"@ && g.chain@ == chain && o is Err
            && o->Err_0@ == why && #[trigger] call_ensures(authorize, (n, p, a, g, now), o)
}

/// Whether the request may be made: by the owner, whatever the authority would say, or where the
/// authority can only agree.
pub open spec fn may_ask<G: Fn(&NodeId, &NodeId, &str, &Grant, u64) -> Result<(), String>>(
    authorize: G,
    owner: NodeId,
    requester: NodeId,
    mailbox: Seq<u8>,
    request: MailRequest,
    now: u64,
) -> bool {
    ||| is_for_owner(request) && requester@ == owner@
    ||| authority_says(authorize, owner, requester, mailbox, request, now, true)
}

proof fn lemma_may_ask_is_performed<
    G: Fn(&NodeId, &NodeId, &str, &Grant, u64) -> Result<(), String>,
    F: Fn(&NodeId, &[u8], &[u8; 64]) -> bool,
>(
    v: &mut MailService,
    requester: &NodeId,
    request: MailRequest,
    now: u64,
    authorize: &G,
    check: &F,
    name: &str,
    key: Result<NodeId, MailError>,
    r: MailReply,
)
    requires
        call_ensures(
            MailService::handle::<G, F>,
            (v, requester, request, now, authorize, check),
            r,
        ),
        name@ == about(request),
        call_ensures(parse_node_id, (name,), key),
        key is Ok,
        may_ask(*authorize, key->Ok_0, *requester, old(v)@.store.self_id, request, now),
        request matches MailRequest::Deliver { envelope, .. } ==> old(v)@.limits.exceeded(
            envelope@,
        ) is None,
    ensures
        final(v)@.limits == old(v)@.limits,
        exists|outcome: Result<(), crate::error::SignatureError>|
            (final(v)@.store, r@) == #[trigger] crate::service::performed(
                old(v)@,
                request@,
                now,
                outcome,
            ) && (!is_for_owner(request) ==> crate::service::signature_says(
                *check,
                request@,
                outcome,
            )),
{
    lemma_view_is_kept(request, r);
}

/// Whether the reply hands out just these envelopes, in their order.
pub open spec fn hands_out(reply: Seq<Envelope>, read: Seq<StoredEnvelope>) -> bool {
    &&& reply.len() == read.len()
    &&& forall|i: int| 0 <= i < reply.len() ==> (#[trigger] reply[i])@ == read[i].envelope@
}

/// Who may read an inbox gets what reading the mailbox gives, and its cursor; nothing changes.
pub proof fn lemma_drain_reads<
    G: Fn(&NodeId, &NodeId, &str, &Grant, u64) -> Result<(), String>,
    F: Fn(&NodeId, &[u8], &[u8; 64]) -> bool,
>(
    v: &mut MailService,
    requester: &NodeId,
    request: MailRequest,
    now: u64,
    authorize: &G,
    check: &F,
    name: &str,
    key: Result<NodeId, MailError>,
    s: &MailboxStore,
    read: (Vec<StoredEnvelope>, usize),
    r: MailReply,
)
    requires
        call_ensures(
            MailService::handle::<G, F>,
            (v, requester, request, now, authorize, check),
            r,
        ),
        name@ == about(request),
        call_ensures(parse_node_id, (name,), key),
        key is Ok,
        may_ask(*authorize, key->Ok_0, *requester, old(v)@.store.self_id, request, now),
        request is Drain,
        s@ == old(v)@.store,
        call_ensures(MailboxStore::read_from, (s, name, request->Drain_since), read),
    ensures
        final(v)@ == old(v)@,
        r matches MailReply::Drained { envelopes, cursor } && hands_out(envelopes@, read.0@)
            && cursor == read.1,
{
    lemma_may_ask_is_performed(v, requester, request, now, authorize, check, name, key, r);
    if let MailReply::Drained { envelopes, cursor } = r {
        lemma_hands_out(envelopes, read.0);
    }
}

proof fn lemma_hands_out(envelopes: Vec<Envelope>, read: Vec<StoredEnvelope>)
    requires
        envelopes.deep_view() == crate::service::envelopes_in(read.deep_view()),
    ensures
        hands_out(envelopes@, read@),
{
    let a = envelopes.deep_view();
    let b = read.deep_view();
    assert(a.len() == envelopes@.len() && b.len() == read@.len());
    assert forall|i: int| 0 <= i < envelopes@.len() implies (#[trigger] envelopes@[i])@
        == read@[i].envelope@ by {
        assert(a[i] == envelopes@[i]@);
        assert(b[i] == read@[i]@);
    }
}

/// Who may read an inbox by pages gets the page that the mailbox gives for the limit, which the
/// service's ceiling bounds; nothing changes.
pub proof fn lemma_drain_page_reads<
    G: Fn(&NodeId, &NodeId, &str, &Grant, u64) -> Result<(), String>,
    F: Fn(&NodeId, &[u8], &[u8; 64]) -> bool,
>(
    v: &mut MailService,
    requester: &NodeId,
    request: MailRequest,
    now: u64,
    authorize: &G,
    check: &F,
    name: &str,
    key: Result<NodeId, MailError>,
    s: &MailboxStore,
    limit: usize,
    read: (Vec<StoredEnvelope>, usize, bool),
    r: MailReply,
)
    requires
        call_ensures(
            MailService::handle::<G, F>,
            (v, requester, request, now, authorize, check),
            r,
        ),
        name@ == about(request),
        call_ensures(parse_node_id, (name,), key),
        key is Ok,
        may_ask(*authorize, key->Ok_0, *requester, old(v)@.store.self_id, request, now),
        request is DrainPage,
        limit == (if old(v)@.limits.max_page == 0 || request->DrainPage_limit == 0 {
            1
        } else if request->DrainPage_limit <= old(v)@.limits.max_page {
            request->DrainPage_limit
        } else {
            old(v)@.limits.max_page
        }),
        s@ == old(v)@.store,
        call_ensures(MailboxStore::read_page, (s, name, request->DrainPage_since, limit), read),
    ensures
        final(v)@ == old(v)@,
        r matches MailReply::Page { envelopes, cursor, more } && hands_out(envelopes@, read.0@)
            && cursor == read.1 && more == read.2,
{
    lemma_may_ask_is_performed(v, requester, request, now, authorize, check, name, key, r);
    if let MailReply::Page { envelopes, cursor, more } = r {
        lemma_hands_out(envelopes, read.0);
    }
}

/// Who may acknowledge gets the number that acknowledging in the mailbox gives, and the mailbox becomes
/// what it becomes by that.
pub proof fn lemma_ack_acknowledges<
    G: Fn(&NodeId, &NodeId, &str, &Grant, u64) -> Result<(), String>,
    F: Fn(&NodeId, &[u8], &[u8; 64]) -> bool,
>(
    v: &mut MailService,
    requester: &NodeId,
    request: MailRequest,
    now: u64,
    authorize: &G,
    check: &F,
    name: &str,
    key: Result<NodeId, MailError>,
    s: &mut MailboxStore,
    n: usize,
    r: MailReply,
)
    requires
        call_ensures(
            MailService::handle::<G, F>,
            (v, requester, request, now, authorize, check),
            r,
        ),
        name@ == about(request),
        call_ensures(parse_node_id, (name,), key),
        key is Ok,
        may_ask(*authorize, key->Ok_0, *requester, old(v)@.store.self_id, request, now),
        request is Ack,
        old(s)@ == old(v)@.store,
        call_ensures(MailboxStore::ack, (s, name, request->Ack_cursor), n),
    ensures
        final(v)@.store == final(s)@,
        final(v)@.limits == old(v)@.limits,
        r == (MailReply::Acked { removed: n }),
{
    lemma_may_ask_is_performed(v, requester, request, now, authorize, check, name, key, r);
}

/// Who may collect gets the receipts that collecting from the mailbox gives, and the mailbox becomes
/// what it becomes by that.
pub proof fn lemma_collect_collects<
    G: Fn(&NodeId, &NodeId, &str, &Grant, u64) -> Result<(), String>,
    F: Fn(&NodeId, &[u8], &[u8; 64]) -> bool,
>(
    v: &mut MailService,
    requester: &NodeId,
    request: MailRequest,
    now: u64,
    authorize: &G,
    check: &F,
    name: &str,
    key: Result<NodeId, MailError>,
    s: &mut MailboxStore,
    collected: Vec<Receipt>,
    r: MailReply,
)
    requires
        call_ensures(
            MailService::handle::<G, F>,
            (v, requester, request, now, authorize, check),
            r,
        ),
        name@ == about(request),
        call_ensures(parse_node_id, (name,), key),
        key is Ok,
        may_ask(*authorize, key->Ok_0, *requester, old(v)@.store.self_id, request, now),
        request is CollectReceipts,
        old(s)@ == old(v)@.store,
        call_ensures(MailboxStore::collect_receipts, (s, name), collected),
    ensures
        final(v)@.store == final(s)@,
        final(v)@.limits == old(v)@.limits,
        r matches MailReply::Receipts { receipts } && receipts@.len() == collected@.len()
            && forall|i: int|
            0 <= i < receipts@.len() ==> (#[trigger] receipts@[i])@ == collected@[i]@,
{
    lemma_may_ask_is_performed(v, requester, request, now, authorize, check, name, key, r);
    if let MailReply::Receipts { receipts } = r {
        let a = receipts.deep_view();
        let b = collected.deep_view();
        assert(a == b);
        assert(a.len() == receipts@.len() && b.len() == collected@.len());
        assert forall|i: int| 0 <= i < receipts@.len() implies (#[trigger] receipts@[i])@
            == collected@[i]@ by {
            assert(a[i] == receipts@[i]@);
            assert(b[i] == collected@[i]@);
        }
    }
}

/// An envelope that the limits do not let through is refused with what they say, and nothing changes,
/// whatever the authority would say.
pub proof fn lemma_excess_is_refused<
    G: Fn(&NodeId, &NodeId, &str, &Grant, u64) -> Result<(), String>,
    F: Fn(&NodeId, &[u8], &[u8; 64]) -> bool,
>(
    v: &mut MailService,
    requester: &NodeId,
    request: MailRequest,
    now: u64,
    authorize: &G,
    check: &F,
    name: &str,
    key: Result<NodeId, MailError>,
    within: Result<(), MailError>,
    why: String,
    r: MailReply,
)
    requires
        call_ensures(
            MailService::handle::<G, F>,
            (v, requester, request, now, authorize, check),
            r,
        ),
        request is Deliver,
        name@ == about(request),
        call_ensures(parse_node_id, (name,), key),
        key is Ok,
        call_ensures(
            Limits::check_envelope,
            (&old(v)@.limits, &request->Deliver_envelope),
            within,
        ),
        within is Err,
        call_ensures(MailError::message, (&within->Err_0,), why),
    ensures
        final(v)@ == old(v)@,
        r matches MailReply::Error { message } && message@ == why@,
{
    lemma_view_is_kept(request, r);
}

/// What the mailbox answers to a delivery it took or refused.
pub open spec fn tells_delivery(
    r: MailReply,
    done: Result<Accepted, MailError>,
    why: Seq<char>,
) -> bool {
    match done {
        Ok(a) => r == (MailReply::Delivered { duplicate: a == Accepted::Duplicate }),
        Err(_) => r matches MailReply::Error { message } && message@ == why,
    }
}

/// An envelope within the limits that the mailbox may accept is put into it as accepting does, and the
/// reply tells what came of it. The check has to be of one mind about the signature.
pub proof fn lemma_delivery_is_accepted<
    G: Fn(&NodeId, &NodeId, &str, &Grant, u64) -> Result<(), String>,
    F: Fn(&NodeId, &[u8], &[u8; 64]) -> bool,
>(
    v: &mut MailService,
    requester: &NodeId,
    request: MailRequest,
    now: u64,
    authorize: &G,
    check: &F,
    name: &str,
    key: Result<NodeId, MailError>,
    within: Result<(), MailError>,
    s: &mut MailboxStore,
    from: &str,
    signer: Result<NodeId, MailError>,
    done: Result<Accepted, MailError>,
    why: String,
    r: MailReply,
)
    requires
        call_ensures(
            MailService::handle::<G, F>,
            (v, requester, request, now, authorize, check),
            r,
        ),
        request is Deliver,
        name@ == about(request),
        call_ensures(parse_node_id, (name,), key),
        key is Ok,
        call_ensures(
            Limits::check_envelope,
            (&old(v)@.limits, &request->Deliver_envelope),
            within,
        ),
        within is Ok,
        authority_says(
            *authorize,
            key->Ok_0,
            *requester,
            old(v)@.store.self_id,
            request,
            now,
            true,
        ),
        old(s)@ == old(v)@.store,
        call_ensures(
            MailboxStore::accept::<F>,
            (s, request->Deliver_envelope, now, check),
            done,
        ),
        from@ == request->Deliver_envelope.body.from@,
        call_ensures(parse_node_id, (from,), signer),
        signer matches Ok(k) ==> crate::store_laws::must_hold(
            *check,
            k,
            request->Deliver_envelope,
        ) || crate::store_laws::must_fail(*check, k, request->Deliver_envelope),
        done matches Err(e) ==> call_ensures(MailError::message, (&e,), why),
    ensures
        final(v)@.store == final(s)@,
        final(v)@.limits == old(v)@.limits,
        tells_delivery(r, done, why@),
{
    lemma_may_ask_is_performed(v, requester, request, now, authorize, check, name, key, r);
    crate::signing_laws::lemma_bytes_of_fields(request->Deliver_envelope.body);
}

/// What the mailbox answers to a receipt it took or refused.
pub open spec fn tells_deposit(
    r: MailReply,
    done: Result<Accepted, MailError>,
    why: Seq<char>,
) -> bool {
    match done {
        Ok(a) => r == (MailReply::ReceiptAccepted { duplicate: a == Accepted::Duplicate }),
        Err(_) => r matches MailReply::Error { message } && message@ == why,
    }
}

/// A receipt that the mailbox may accept is put into it as depositing does, and the reply tells what
/// came of it. The check has to be of one mind about the signature.
pub proof fn lemma_receipt_is_deposited<
    G: Fn(&NodeId, &NodeId, &str, &Grant, u64) -> Result<(), String>,
    F: Fn(&NodeId, &[u8], &[u8; 64]) -> bool,
>(
    v: &mut MailService,
    requester: &NodeId,
    request: MailRequest,
    now: u64,
    authorize: &G,
    check: &F,
    name: &str,
    key: Result<NodeId, MailError>,
    s: &mut MailboxStore,
    by: &str,
    signer: Result<NodeId, MailError>,
    done: Result<Accepted, MailError>,
    why: String,
    r: MailReply,
)
    requires
        call_ensures(
            MailService::handle::<G, F>,
            (v, requester, request, now, authorize, check),
            r,
        ),
        request is PutReceipt,
        name@ == about(request),
        call_ensures(parse_node_id, (name,), key),
        key is Ok,
        authority_says(
            *authorize,
            key->Ok_0,
            *requester,
            old(v)@.store.self_id,
            request,
            now,
            true,
        ),
        old(s)@ == old(v)@.store,
        call_ensures(
            MailboxStore::put_receipt::<F>,
            (s, name, request->PutReceipt_receipt, check),
            done,
        ),
        by@ == request->PutReceipt_receipt.body.by@,
        call_ensures(parse_node_id, (by,), signer),
        signer matches Ok(k) ==> exists|ok: bool| #[trigger]
            crate::signing_laws::only_answers(
                *check,
                k@,
                crate::store_laws::signed_receipt(request->PutReceipt_receipt),
                request->PutReceipt_receipt.sig@,
                ok,
            ),
        done matches Err(e) ==> call_ensures(MailError::message, (&e,), why),
    ensures
        final(v)@.store == final(s)@,
        final(v)@.limits == old(v)@.limits,
        tells_deposit(r, done, why@),
{
    lemma_may_ask_is_performed(v, requester, request, now, authorize, check, name, key, r);
    crate::signing_laws::lemma_receipt_model(request->PutReceipt_receipt);
}

/// A service keeps the mailbox and the limits it is given, and the usual limits where it is given none.
pub proof fn lemma_service_is_made_of(
    store: MailboxStore,
    limits: Limits,
    usual: Limits,
    a: MailService,
    b: MailService,
)
    requires
        call_ensures(Limits::default, (), usual),
        call_ensures(MailService::new, (store,), a),
        call_ensures(MailService::with_limits, (store, limits), b),
    ensures
        a@.store == store@ && a@.limits == usual,
        b@.store == store@ && b@.limits == limits,
{
}

} // verus!
