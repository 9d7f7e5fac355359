//! What serving a mailbox comes to, said of calls and what they give.

use crate::digest::NodeId;
use crate::directory::{Directory, NameSet};
use crate::envelope::{parse_node_id, Envelope};
use crate::error::{MailError, SignatureError};
use crate::mailbox::{Accepted, MailboxStore, StoredEnvelope};
use crate::proto::{Grant, MailReply, MailRequest, ReplyModel};
use crate::serve::{at_least, is_revoked, request_mutates, Inbound, MailboxServer};
use crate::service::MailService;
use crate::shared::SharedMailbox;
use crate::wire::Wire;
use vstd::prelude::*;

verus! {

/// The larger of the two.
pub proof fn lemma_at_least(v: u64, least: u64, r: u64)
    requires
        call_ensures(at_least, (v, least), r),
    ensures
        r >= v,
        r >= least,
        r == v || r == least,
{
}

/// Reading changes nothing; every other request may.
pub proof fn lemma_what_changes(q: &MailRequest, r: bool)
    requires
        call_ensures(request_mutates, (q,), r),
    ensures
        r == !(q is Drain || q is DrainPage),
{
}

/// Whether the list holds the issuer, by its node id in hex, with the nonce.
pub open spec fn is_listed(revoked: Seq<(String, u64)>, issuer: Seq<u8>, nonce: u64) -> bool {
    exists|i: int|
        0 <= i < revoked.len() && (#[trigger] revoked[i]).0@ == crate::digest::hex_text(issuer)
            && revoked[i].1 == nonce
}

/// A grant is revoked exactly if its issuer is listed with its nonce.
pub proof fn lemma_revoked_if_listed(
    revoked: &Vec<(String, u64)>,
    issuer: &NodeId,
    nonce: u64,
    r: bool,
)
    requires
        call_ensures(is_revoked, (revoked, issuer, nonce), r),
    ensures
        r == is_listed(revoked@, issuer@, nonce),
{
}

/// A new server has nothing to save and waits as long as it is told.
pub proof fn lemma_new_server(service: MailService, poll_ms: u64, v: MailboxServer)
    requires
        call_ensures(MailboxServer::new, (service, poll_ms), v),
    ensures
        v@.service == service@,
        v@.poll_ms == poll_ms,
        v@.backoff_ms == poll_ms,
        !v@.dirty,
{
}

/// After a failure the server waits as long as it was to, and twice as long the next time, but at most
/// half a minute. After a success it waits as long as it is told again. Nothing else changes.
pub proof fn lemma_waits(v: &mut MailboxServer, wait: u64, w: &mut MailboxServer, done: ())
    requires
        call_ensures(MailboxServer::poll_failed, (v,), wait),
        call_ensures(MailboxServer::poll_succeeded, (w,), done),
    ensures
        wait == old(v)@.backoff_ms,
        final(v)@.backoff_ms == if 2 * wait < 30000 {
            2 * wait
        } else {
            30000
        },
        final(v)@.service == old(v)@.service,
        final(v)@.poll_ms == old(v)@.poll_ms,
        final(v)@.dirty == old(v)@.dirty,
        final(w)@.backoff_ms == old(w)@.poll_ms,
        final(w)@.service == old(w)@.service,
        final(w)@.poll_ms == old(w)@.poll_ms,
        final(w)@.dirty == old(w)@.dirty,
{
}

/// What is no mail, cannot be answered, comes from nobody, or holds no request, is passed over, and
/// changes nothing.
pub proof fn lemma_noise_is_passed_over<
    R: Fn(&Grant) -> bool,
    G: Fn(&NodeId, &NodeId, &str, &Grant, u64) -> Result<(), String>,
    F: Fn(&NodeId, &[u8], &[u8; 64]) -> bool,
>(
    v: &mut MailboxServer,
    msg: Inbound,
    now: u64,
    readable: &R,
    authorize: &G,
    check: &F,
    from: &str,
    requester: Result<NodeId, MailError>,
    payload: &[u8],
    request: Result<MailRequest, MailError>,
    r: Option<(u64, Vec<u8>)>,
)
    requires
        call_ensures(
            MailboxServer::message::<R, G, F>,
            (v, msg, now, readable, authorize, check),
            r,
        ),
        from@ == msg.from@,
        call_ensures(parse_node_id, (from,), requester),
        msg.payload matches Some(p) ==> payload@ == p@,
        call_ensures(MailRequest::decode, (payload,), request),
        msg.topic@ != "ce-mail/v1"@ || msg.reply_token is None || msg.payload is None
            || requester is Err || request is Err,
    ensures
        r is None,
        final(v)@ == old(v)@,
{
}

/// A request whose grant cannot be read is passed over too.
pub proof fn lemma_unreadable_is_passed_over<
    R: Fn(&Grant) -> bool,
    G: Fn(&NodeId, &NodeId, &str, &Grant, u64) -> Result<(), String>,
    F: Fn(&NodeId, &[u8], &[u8; 64]) -> bool,
>(
    v: &mut MailboxServer,
    msg: Inbound,
    now: u64,
    readable: &R,
    authorize: &G,
    check: &F,
    r: Option<(u64, Vec<u8>)>,
)
    requires
        call_ensures(
            MailboxServer::message::<R, G, F>,
            (v, msg, now, readable, authorize, check),
            r,
        ),
        forall|g: &Grant, ok: bool| #[trigger] call_ensures(*readable, (g,), ok) ==> !ok,
    ensures
        r is None,
        final(v)@ == old(v)@,
{
}

/// A request that can be read is handled by the service and answered, under the token it came with.
/// The mailbox is to be saved from then on if the request was granted and may have changed it, and if
/// it was to be saved before. How long to wait does not change.
pub proof fn lemma_request_is_answered<
    R: Fn(&Grant) -> bool,
    G: Fn(&NodeId, &NodeId, &str, &Grant, u64) -> Result<(), String>,
    F: Fn(&NodeId, &[u8], &[u8; 64]) -> bool,
>(
    v: &mut MailboxServer,
    msg: Inbound,
    now: u64,
    readable: &R,
    authorize: &G,
    check: &F,
    from: &str,
    requester: Result<NodeId, MailError>,
    payload: &[u8],
    request: Result<MailRequest, MailError>,
    r: Option<(u64, Vec<u8>)>,
)
    requires
        call_ensures(
            MailboxServer::message::<R, G, F>,
            (v, msg, now, readable, authorize, check),
            r,
        ),
        msg.topic@ == "ce-mail/v1"@,
        msg.reply_token is Some,
        from@ == msg.from@,
        call_ensures(parse_node_id, (from,), requester),
        requester is Ok,
        msg.payload matches Some(p) && payload@ == p@,
        call_ensures(MailRequest::decode, (payload,), request),
        request is Ok,
        forall|g: &Grant, ok: bool| #[trigger] call_ensures(*readable, (g,), ok) ==> ok,
    ensures
        r matches Some((token, bytes)) && token == msg.reply_token->0 && exists|reply: ReplyModel|
            #[trigger]
            crate::service::answers(
                *authorize,
                *check,
                old(v)@.service,
                requester->Ok_0@,
                request->Ok_0@,
                now,
                final(v)@.service.store,
                reply,
            ) && bytes@ == MailReply::wire(reply) && (final(v)@.dirty <==> old(v)@.dirty || (!(
            request->Ok_0 is Drain || request->Ok_0 is DrainPage) && !(reply is Error))),
        final(v)@.service.limits == old(v)@.service.limits,
        final(v)@.poll_ms == old(v)@.poll_ms,
        final(v)@.backoff_ms == old(v)@.backoff_ms,
{
}

/// At the end of a batch the mailbox is saved exactly if it may have changed, and after that there is
/// nothing to save. What is saved reads back as the same mail, receipts and cursors.
pub proof fn lemma_batch_is_saved(
    v: &mut MailboxServer,
    saved: Option<Vec<u8>>,
    bytes: &[u8],
    back: Result<MailboxStore, MailError>,
)
    requires
        call_ensures(MailboxServer::end_batch, (v,), saved),
        saved matches Some(b) ==> bytes@ == b@,
        call_ensures(MailboxStore::from_bytes, (bytes,), back),
        old(v)@.service.store.cursors_fit(),
        old(v)@.service.store.capacity >= 1,
    ensures
        saved is Some <==> old(v)@.dirty,
        !final(v)@.dirty,
        final(v)@.service == old(v)@.service,
        final(v)@.poll_ms == old(v)@.poll_ms,
        final(v)@.backoff_ms == old(v)@.backoff_ms,
        saved is Some ==> (back matches Ok(s) && s@.queues == old(v)@.service.store.queues
            && s@.receipts == old(v)@.service.store.receipts && s@.gone
            == old(v)@.service.store.gone && s@.self_id == old(v)@.service.store.self_id
            && s@.capacity == old(v)@.service.store.capacity),
{
    if saved is Some {
        crate::mailbox_laws::lemma_stored_mailbox_reads_back(bytes@, old(v)@.service.store);
    }
}

/// Whatever a shared mailbox holds, an envelope whose signature holds and whose recipient has a name is
/// taken or known already; one without a recipient, and one whose signature does not hold, is refused.
pub proof fn lemma_shared_accept_decides<F: Fn(&NodeId, &[u8], &[u8; 64]) -> bool>(
    s: &SharedMailbox,
    e: Envelope,
    now: u64,
    check: &F,
    from: &str,
    key: Result<NodeId, MailError>,
    r: Result<Accepted, MailError>,
)
    requires
        from@ == e.body.from@,
        call_ensures(parse_node_id, (from,), key),
        call_ensures(SharedMailbox::accept::<F>, (s, e, now, check), r),
    ensures
        key matches Ok(k) ==> {
            &&& crate::store_laws::must_hold(*check, k, e) && e.body.to@.len() > 0 ==> r is Ok
            &&& crate::store_laws::must_hold(*check, k, e) && e.body.to@.len() == 0 ==> r == Err::<
                Accepted,
                MailError,
            >(MailError::NoRecipient)
            &&& crate::store_laws::must_fail(*check, k, e) ==> r == Err::<Accepted, MailError>(
                MailError::UnverifiableEnvelope(SignatureError::Forged),
            )
        },
        key matches Err(why) ==> (why matches MailError::NodeId(w) && r == Err::<
            Accepted,
            MailError,
        >(MailError::UnverifiableEnvelope(SignatureError::Signer(w)))),
{
    crate::signing_laws::lemma_bytes_of_fields(e.body);
}

/// A page of a shared mailbox is never longer than was asked for, or than one, and says that there is
/// more only if it is as long as that.
pub proof fn lemma_shared_page_is_bounded(
    s: &SharedMailbox,
    name: &str,
    since: usize,
    limit: usize,
    r: Result<(Vec<StoredEnvelope>, usize, bool), MailError>,
)
    requires
        call_ensures(SharedMailbox::read_page, (s, name, since, limit), r),
    ensures
        r is Ok,
        r->Ok_0.0@.len() <= limit || r->Ok_0.0@.len() == 1,
        r->Ok_0.2 ==> r->Ok_0.0@.len() >= 1 && r->Ok_0.0@.len() >= limit,
{
    assert(r->Ok_0.0.deep_view().len() == r->Ok_0.0@.len());
}

/// Acknowledging, counting and saving in a shared mailbox always come to something. What is saved reads
/// back, with the node and the capacity that the mailbox was made with, and a mailbox that was tidy
/// when it was shared never counts more for a recipient than it has room for.
pub proof fn lemma_shared_mailbox_serves(
    store: MailboxStore,
    s: SharedMailbox,
    name: &str,
    cursor: usize,
    acked: Result<usize, MailError>,
    pending: Result<usize, MailError>,
    saved: Result<Vec<u8>, MailError>,
    bytes: &[u8],
    back: Result<MailboxStore, MailError>,
)
    requires
        call_ensures(SharedMailbox::new, (store,), s),
        call_ensures(SharedMailbox::ack, (&s, name, cursor), acked),
        call_ensures(SharedMailbox::pending_count, (&s, name), pending),
        call_ensures(SharedMailbox::to_bytes, (&s,), saved),
        saved matches Ok(b) ==> bytes@ == b@,
        call_ensures(MailboxStore::from_bytes, (bytes,), back),
    ensures
        acked is Ok,
        pending is Ok,
        crate::mailbox_laws::tidy(store@) ==> pending->Ok_0 <= store@.capacity,
        saved is Ok,
        back matches Ok(t) && t@.self_id == store@.self_id && t@.capacity == store@.capacity,
{
    let held = choose|held: crate::mailbox::StoreModel| #[trigger]
        s.upkeep().allows(held) && held.cursors_fit() && held.capacity >= 1
            && crate::mailbox::stores(saved->Ok_0@, held);
    crate::mailbox_laws::lemma_stored_mailbox_reads_back(bytes@, held);
}

/// A service shows the limits and the mailbox that it has.
pub proof fn lemma_service_shows(
    v: &MailService,
    w: &MailboxServer,
    limits: &crate::limits::Limits,
    store: &MailboxStore,
    service: &MailService,
)
    requires
        call_ensures(MailService::limits, (v,), limits),
        call_ensures(MailService::store, (v,), store),
        call_ensures(MailboxServer::service, (w,), service),
    ensures
        *limits == v@.limits,
        store@ == v@.store,
        service@ == w@.service,
{
}

/// A set of names holds what was put in and not taken out again.
pub proof fn lemma_names_are_held(
    s: &mut NameSet,
    name: String,
    done: (),
    t: &mut NameSet,
    other: &str,
    gone: (),
    none: NameSet,
    x: &NameSet,
    asked: &str,
    r: bool,
)
    requires
        call_ensures(NameSet::new, (), none),
        call_ensures(NameSet::insert, (s, name), done),
        call_ensures(NameSet::remove, (t, other), gone),
        call_ensures(NameSet::contains, (x, asked), r),
    ensures
        x@ == none@ ==> !r,
        x@ == final(s)@ ==> (r <==> asked@ == name@ || old(s)@.contains(asked@)),
        x@ == final(t)@ ==> (r <==> asked@ != other@ && old(t)@.contains(asked@)),
{
}

/// What is put into a directory is found under its name, and nothing else is under another.
pub proof fn lemma_directory_finds<V: DeepView>(
    d: &mut Directory<V>,
    name: String,
    value: V,
    done: (),
)
    requires
        call_ensures(Directory::<V>::insert, (d, name, value), done),
    ensures
        final(d)@.contains_key(name@),
        final(d)@[name@] == value.deep_view(),
        crate::store_laws::same_but_for(old(d)@, final(d)@, name@),
{
}

/// What is looked up in a directory is what stands under the name, and nothing in an empty one. What
/// is taken out is what stood there, and stands there no longer; all else stays.
pub proof fn lemma_directory_looks_up<V: DeepView>(
    d: &Directory<V>,
    empty: Directory<V>,
    name: &str,
    found: Option<&V>,
    e: &mut Directory<V>,
    taken: Option<V>,
)
    requires
        call_ensures(Directory::<V>::new, (), empty),
        call_ensures(Directory::<V>::get, (d, name), found),
        call_ensures(Directory::<V>::remove, (e, name), taken),
    ensures
        forall|k: Seq<char>| !#[trigger] empty@.contains_key(k),
        found is Some <==> d@.contains_key(name@),
        found matches Some(v) ==> v.deep_view() == d@[name@],
        taken is Some <==> old(e)@.contains_key(name@),
        taken matches Some(v) ==> v.deep_view() == old(e)@[name@],
        !final(e)@.contains_key(name@),
        crate::store_laws::same_but_for(old(e)@, final(e)@, name@),
{
}

/// Of several entries under one name in a list the last one counts.
pub proof fn lemma_last_entry_counts<V: DeepView>(
    entries: Vec<(String, V)>,
    d: Directory<V>,
    i: int,
)
    requires
        call_ensures(Directory::<V>::from_entries, (entries,), d),
        0 <= i < entries@.len(),
        forall|j: int|
            i < j < entries@.len() ==> (#[trigger] entries@[j]).0@ != entries@[i].0@,
    ensures
        d@.contains_key(entries@[i].0@),
        d@[entries@[i].0@] == entries@[i].1.deep_view(),
{
    lemma_last_counts(entries.deep_view(), i);
}

proof fn lemma_last_counts<T>(s: Seq<(Seq<char>, T)>, i: int)
    requires
        0 <= i < s.len(),
        forall|j: int| i < j < s.len() ==> (#[trigger] s[j]).0 != s[i].0,
    ensures
        crate::directory::map_of(s).contains_key(s[i].0),
        crate::directory::map_of(s)[s[i].0] == s[i].1,
    decreases s.len(),
{
    let front = s.drop_last();
    if i < front.len() {
        assert(front[i] == s[i]);
        assert(s[s.len() - 1].0 != s[i].0);
        assert forall|j: int| i < j < front.len() implies (#[trigger] front[j]).0
            != front[i].0 by {
            assert(front[j] == s[j]);
        }
        lemma_last_counts(front, i);
    }
}

} // verus!
