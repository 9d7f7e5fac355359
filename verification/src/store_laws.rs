//! What a mailbox does with what it is handed, said of calls and what they give.

use crate::digest::NodeId;
use crate::envelope::{parse_node_id, Envelope};
use crate::error::{Format, MailError, SignatureError};
use crate::mailbox::{
    Accepted, MailboxStore, StoreModel, StoredEnvelope, StoredMailbox, StoredMailboxV1,
    StoredMailboxV2, StoredModel,
};
use crate::proto::Grant;
use crate::receipt::{Receipt, ReceiptModel};
use crate::wire::Wire;
use vstd::prelude::*;

verus! {

/// What is kept under a name.
pub open spec fn kept_for<T>(kept: Map<Seq<char>, Seq<T>>, name: Seq<char>) -> Seq<T> {
    if kept.contains_key(name) {
        kept[name]
    } else {
        Seq::empty()
    }
}

/// Whether the name is remembered with the id.
pub open spec fn remembers(
    seen: Map<Seq<char>, Set<Seq<char>>>,
    name: Seq<char>,
    id: Seq<char>,
) -> bool {
    seen.contains_key(name) && seen[name].contains(id)
}

/// How many envelopes left the recipient's inbox.
pub open spec fn left(s: StoreModel, name: Seq<char>) -> int {
    if s.gone.contains_key(name) {
        s.gone[name] as int
    } else {
        0
    }
}

/// Whether the two keep the same under every name but `name`.
pub open spec fn same_but_for<T>(
    a: Map<Seq<char>, T>,
    b: Map<Seq<char>, T>,
    name: Seq<char>,
) -> bool {
    forall|k: Seq<char>|
        k != name ==> (#[trigger] a.contains_key(k) <==> b.contains_key(k)) && (a.contains_key(k)
            ==> a[k] == b[k])
}

/// What an envelope's signature is over.
pub open spec fn signed(e: Envelope) -> Seq<u8> {
    crate::wire::text_bytes("ce-mail-envelope-v1"@) + crate::signing_laws::fields_in_a_row(e.body)
}

/// Whether the check can only find that the node with this key signed the envelope.
pub open spec fn must_hold<F: Fn(&NodeId, &[u8], &[u8; 64]) -> bool>(
    check: F,
    key: NodeId,
    e: Envelope,
) -> bool {
    crate::signing_laws::only_answers(check, key@, signed(e), e.sig@, true)
}

/// Whether the check can only find that the node with this key did not sign the envelope.
pub open spec fn must_fail<F: Fn(&NodeId, &[u8], &[u8; 64]) -> bool>(
    check: F,
    key: NodeId,
    e: Envelope,
) -> bool {
    crate::signing_laws::only_answers(check, key@, signed(e), e.sig@, false)
}

/// An envelope whose signature holds and whose recipient has a name is stored unless its id is
/// remembered for the recipient, whatever else it says. If it is, it is a duplicate. Without a
/// recipient, or where the signature does not hold, it is refused. Only what is stored changes the
/// mailbox.
pub proof fn lemma_accept_decides<F: Fn(&NodeId, &[u8], &[u8; 64]) -> bool>(
    s: &mut MailboxStore,
    e: Envelope,
    now: u64,
    check: &F,
    from: &str,
    key: Result<NodeId, MailError>,
    r: Result<Accepted, MailError>,
)
    requires
        from@ == e.body.from@,
        call_ensures(parse_node_id, (from,), key),
        call_ensures(MailboxStore::accept::<F>, (s, e, now, check), r),
    ensures
        key matches Ok(k) ==> {
            &&& must_hold(*check, k, e) && e.body.to@.len() > 0 && !remembers(
                old(s)@.seen,
                e.body.to@,
                crate::thread_laws::id_of(e),
            ) ==> r == Ok::<Accepted, MailError>(Accepted::Stored)
            &&& must_hold(*check, k, e) && e.body.to@.len() > 0 && remembers(
                old(s)@.seen,
                e.body.to@,
                crate::thread_laws::id_of(e),
            ) ==> r == Ok::<Accepted, MailError>(Accepted::Duplicate)
            &&& must_hold(*check, k, e) && e.body.to@.len() == 0 ==> r == Err::<
                Accepted,
                MailError,
            >(MailError::NoRecipient)
            &&& must_fail(*check, k, e) ==> r == Err::<Accepted, MailError>(
                MailError::UnverifiableEnvelope(SignatureError::Forged),
            )
        },
        key matches Err(why) ==> (why matches MailError::NodeId(w) && r == Err::<
            Accepted,
            MailError,
        >(MailError::UnverifiableEnvelope(SignatureError::Signer(w)))),
        r != Ok::<Accepted, MailError>(Accepted::Stored) ==> final(s)@ == old(s)@,
{
    crate::thread_laws::lemma_id_of(e);
    crate::signing_laws::lemma_bytes_of_fields(e.body);
}

/// Whether `after` is `before` and the item behind it, without the oldest where there is no room.
pub open spec fn takes_in<T>(before: Seq<T>, after: Seq<T>, item: T, capacity: usize) -> bool {
    &&& after.len() == if before.len() + 1 <= capacity {
        before.len() + 1
    } else {
        capacity as nat
    }
    &&& after.len() > 0 ==> after.last() == item
    &&& forall|i: int|
        0 <= i < after.len() - 1 ==> #[trigger] after[i] == before[before.len() + 1 - after.len()
            + i]
}

/// What is stored stands last in its recipient's inbox, with the time at which it came. The oldest
/// leave where there is no room, and are counted and forgotten. Nothing else in the mailbox changes.
pub proof fn lemma_accept_stores<F: Fn(&NodeId, &[u8], &[u8; 64]) -> bool>(
    s: &mut MailboxStore,
    e: Envelope,
    now: u64,
    check: &F,
    r: Result<Accepted, MailError>,
)
    requires
        old(s).wf(),
        call_ensures(MailboxStore::accept::<F>, (s, e, now, check), r),
        r == Ok::<Accepted, MailError>(Accepted::Stored),
    ensures
        ({
            let a = old(s)@;
            let b = final(s)@;
            let to = e.body.to@;
            let before = kept_for(a.queues, to);
            let after = kept_for(b.queues, to);
            let lost = before.len() + 1 - after.len();
            &&& takes_in(before, after, StoredModel { envelope: e@, stored_at: now }, a.capacity)
            &&& same_but_for(a.queues, b.queues, to)
            &&& same_but_for(a.gone, b.gone, to)
            &&& same_but_for(a.seen, b.seen, to)
            &&& left(a, to) + before.len() + 1 <= usize::MAX ==> left(b, to) == left(a, to) + lost
            &&& forall|x: Seq<char>| #[trigger]
                remembers(b.seen, to, x) <==> (remembers(a.seen, to, x)
                    || x == crate::thread_laws::id_of(e)) && forall|i: int|
                    0 <= i < lost && i < before.len() ==> crate::envelope::message_id_of(
                        (#[trigger] before[i]).envelope.body,
                    ) != x
            &&& a.receipts == b.receipts
            &&& a.receipts_seen == b.receipts_seen
            &&& a.self_id == b.self_id
            &&& a.capacity == b.capacity
        }),
{
    old(s).lemma_wf_has_capacity();
    crate::thread_laws::lemma_id_of(e);
    let a = old(s)@;
    let b = final(s)@;
    let to = e.body.to@;
    let item = StoredModel { envelope: e@, stored_at: now };
    let before = kept_for(a.queues, to);
    let all = before.push(item);
    let over = crate::mailbox::overflow(all, a.capacity);
    let out = all.take(over);
    assert(b == a.with_envelope(e@, now));
    assert(b.queues[to] == all.skip(over));
    let ids = crate::mailbox::message_ids(out);
    assert forall|x: Seq<char>| #[trigger] remembers(b.seen, to, x) <==> (remembers(a.seen, to, x)
        || x == crate::thread_laws::id_of(e)) && forall|i: int|
        0 <= i < over && i < before.len() ==> crate::envelope::message_id_of(
            (#[trigger] before[i]).envelope.body,
        ) != x by {
        if ids.to_set().contains(x) {
            let i = choose|i: int| 0 <= i < ids.len() && ids[i] == x;
            assert(out[i] == all[i]);
            if i < before.len() {
                assert(crate::envelope::message_id_of(before[i].envelope.body) == x);
            }
        }
        if exists|i: int|
            0 <= i < over && i < before.len() && crate::envelope::message_id_of(
                (#[trigger] before[i]).envelope.body,
            ) == x {
            let i = choose|i: int|
                0 <= i < over && i < before.len() && crate::envelope::message_id_of(
                    (#[trigger] before[i]).envelope.body,
                ) == x;
            assert(ids[i] == x);
            assert(ids.contains(x));
        }
    }
}

/// Store and forward: an envelope that was stored is the last that the recipient then reads, as it was
/// and with the time at which it came, and what was kept before it comes before it.
pub proof fn lemma_stored_is_read<F: Fn(&NodeId, &[u8], &[u8; 64]) -> bool>(
    s: &mut MailboxStore,
    e: Envelope,
    now: u64,
    check: &F,
    r: Result<Accepted, MailError>,
    t: &MailboxStore,
    name: &str,
    read: (Vec<StoredEnvelope>, usize),
    pending: usize,
)
    requires
        old(s).wf(),
        call_ensures(MailboxStore::accept::<F>, (s, e, now, check), r),
        r == Ok::<Accepted, MailError>(Accepted::Stored),
        t.wf() && t@ == final(s)@,
        name@ == e.body.to@,
        call_ensures(MailboxStore::read_from, (t, name, 0), read),
        call_ensures(MailboxStore::pending_count, (t, name), pending),
    ensures
        read.0@.len() > 0,
        pending == read.0@.len(),
        crate::thread_laws::same_envelope(read.0@.last().envelope, e),
        read.0@.last().stored_at == now,
{
    old(s).lemma_wf_has_capacity();
    lemma_accept_stores(s, e, now, check, r);
    lemma_reading_gives_the_rest(t, name, 0, read);
    let item = read.0@.last();
    assert(is_same(read.0@[read.0@.len() - 1], kept_for(t@.queues, name@).last()));
    crate::signing_laws::lemma_same_contents(item.envelope.body, e.body);
}

/// A message that is delivered again is kept once: what was stored in a tidy mailbox is a duplicate the
/// next time, at whatever time that is, and changes nothing then.
pub proof fn lemma_stored_once<F: Fn(&NodeId, &[u8], &[u8; 64]) -> bool>(
    s: &mut MailboxStore,
    e: Envelope,
    now: u64,
    check: &F,
    r: Result<Accepted, MailError>,
    t: &mut MailboxStore,
    later: u64,
    from: &str,
    key: Result<NodeId, MailError>,
    again: Result<Accepted, MailError>,
)
    requires
        crate::mailbox_laws::tidy(old(s)@),
        call_ensures(MailboxStore::accept::<F>, (s, e, now, check), r),
        r == Ok::<Accepted, MailError>(Accepted::Stored),
        old(t)@ == final(s)@,
        from@ == e.body.from@,
        call_ensures(parse_node_id, (from,), key),
        key is Ok && must_hold(*check, key->Ok_0, e),
        call_ensures(MailboxStore::accept::<F>, (t, e, later, check), again),
    ensures
        again == Ok::<Accepted, MailError>(Accepted::Duplicate),
        final(t)@ == old(t)@,
{
    crate::mailbox_laws::lemma_redelivery_is_duplicate(old(s)@, e@, now, later);
    crate::signing_laws::lemma_bytes_of_fields(e.body);
}

/// What is kept for a recipient is what reading from the start gives, in the order in which it came.
pub open spec fn shows(items: Seq<StoredEnvelope>, kept: Seq<StoredModel>, from: int) -> bool {
    &&& 0 <= from <= kept.len()
    &&& items.len() == kept.len() - from
    &&& forall|i: int| 0 <= i < items.len() ==> is_same(#[trigger] items[i], kept[from + i])
}

/// Whether the item holds what is kept.
pub open spec fn is_same(item: StoredEnvelope, kept: StoredModel) -> bool {
    item.envelope@ == kept.envelope && item.stored_at == kept.stored_at
}

/// Where in what is kept a cursor stands: it counts all that was ever stored, so what has left is taken
/// off it.
pub open spec fn stands(cursor: int, gone: int, kept: int) -> int {
    if cursor <= gone {
        0
    } else if cursor >= gone + kept {
        kept
    } else {
        cursor - gone
    }
}

/// Reading gives all that is kept from the cursor on, in its order, and the cursor behind it.
pub proof fn lemma_reading_gives_the_rest(
    s: &MailboxStore,
    name: &str,
    since: usize,
    r: (Vec<StoredEnvelope>, usize),
)
    requires
        s.wf(),
        call_ensures(MailboxStore::read_from, (s, name, since), r),
    ensures
        ({
            let kept = kept_for(s@.queues, name@);
            let gone = left(s@, name@);
            &&& shows(r.0@, kept, stands(since as int, gone, kept.len() as int))
            &&& r.1 == gone + kept.len()
        }),
{
    s.lemma_wf_cursors_fit();
    let kept = kept_for(s@.queues, name@);
    let from = stands(since as int, left(s@, name@), kept.len() as int);
    assert(s@.base(name@) + s@.inbox(name@).len() <= usize::MAX);
    let v = r.0.deep_view();
    assert(v == kept.skip(from));
    assert(v.len() == r.0@.len());
    assert forall|i: int| 0 <= i < r.0@.len() implies is_same(
        #[trigger] r.0@[i],
        kept[from + i],
    ) by {
        assert(v[i] == r.0@[i]@);
    }
}

/// Reading on from the cursor that reading gave gives nothing, and the same cursor.
pub proof fn lemma_reading_on_gives_nothing(
    s: &MailboxStore,
    name: &str,
    since: usize,
    r: (Vec<StoredEnvelope>, usize),
    again: (Vec<StoredEnvelope>, usize),
)
    requires
        s.wf(),
        call_ensures(MailboxStore::read_from, (s, name, since), r),
        call_ensures(MailboxStore::read_from, (s, name, r.1), again),
    ensures
        again.0@.len() == 0,
        again.1 == r.1,
{
    lemma_reading_gives_the_rest(s, name, since, r);
    lemma_reading_gives_the_rest(s, name, r.1, again);
}

/// A page is the front of what reading from the cursor gives: as many as were asked for, at least one,
/// or all if there are fewer. Its cursor stands behind it, and it says whether there are more.
pub proof fn lemma_page_is_front_of_reading(
    s: &MailboxStore,
    name: &str,
    since: usize,
    limit: usize,
    all: (Vec<StoredEnvelope>, usize),
    r: (Vec<StoredEnvelope>, usize, bool),
)
    requires
        s.wf(),
        call_ensures(MailboxStore::read_from, (s, name, since), all),
        call_ensures(MailboxStore::read_page, (s, name, since, limit), r),
    ensures
        r.0@.len() == (if all.0@.len() <= limit {
            all.0@.len()
        } else if limit == 0 {
            1
        } else {
            limit as nat
        }),
        forall|i: int|
            0 <= i < r.0@.len() ==> {
                &&& (#[trigger] r.0@[i]).envelope@ == all.0@[i].envelope@
                &&& r.0@[i].stored_at == all.0@[i].stored_at
            },
        r.2 == (r.0@.len() < all.0@.len()),
        r.1 == all.1 - (all.0@.len() - r.0@.len()),
{
    s.lemma_wf_cursors_fit();
    assert(s@.base(name@) + s@.inbox(name@).len() <= usize::MAX);
    let v = r.0.deep_view();
    let w = all.0.deep_view();
    assert(v.len() == r.0@.len() && w.len() == all.0@.len());
    assert forall|i: int| 0 <= i < r.0@.len() implies {
        &&& (#[trigger] r.0@[i]).envelope@ == all.0@[i].envelope@
        &&& r.0@[i].stored_at == all.0@[i].stored_at
    } by {
        assert(v[i] == r.0@[i]@);
        assert(w[i] == all.0@[i]@);
        assert(v[i] == w[i]);
    }
}

/// Acknowledging lets go of what stands before the cursor, says how many that were, and counts them.
/// What stands behind it, all other inboxes, what is remembered, and the receipts stay.
pub proof fn lemma_ack_lets_go(s: &mut MailboxStore, name: &str, cursor: usize, r: usize)
    requires
        old(s).wf(),
        call_ensures(MailboxStore::ack, (s, name, cursor), r),
    ensures
        ({
            let a = old(s)@;
            let b = final(s)@;
            let before = kept_for(a.queues, name@);
            let after = kept_for(b.queues, name@);
            &&& r == stands(cursor as int, left(a, name@), before.len() as int)
            &&& after.len() == before.len() - r
            &&& forall|i: int| 0 <= i < after.len() ==> #[trigger] after[i] == before[i + r]
            &&& left(b, name@) == left(a, name@) + r
            &&& same_but_for(a.queues, b.queues, name@)
            &&& same_but_for(a.gone, b.gone, name@)
            &&& a.seen == b.seen
            &&& a.receipts == b.receipts
            &&& a.receipts_seen == b.receipts_seen
            &&& a.self_id == b.self_id
            &&& a.capacity == b.capacity
        }),
{
    old(s).lemma_wf_cursors_fit();
    assert(old(s)@.base(name@) + old(s)@.inbox(name@).len() <= usize::MAX);
}

/// What is pending is what is kept.
pub proof fn lemma_counts_are_of_kept(
    s: &MailboxStore,
    name: &str,
    pending: usize,
    receipts: usize,
    id: &NodeId,
)
    requires
        s.wf(),
        call_ensures(MailboxStore::pending_count, (s, name), pending),
        call_ensures(MailboxStore::receipt_count, (s, name), receipts),
        call_ensures(MailboxStore::self_id, (s,), id),
    ensures
        pending == kept_for(s@.queues, name@).len(),
        receipts == kept_for(s@.receipts, name@).len(),
        id@ == s@.self_id,
{
}

/// A new mailbox keeps nothing and remembers nothing. It has room for one at least.
pub proof fn lemma_new_mailbox_is_empty(id: NodeId, capacity: usize, s: MailboxStore)
    requires
        call_ensures(MailboxStore::new, (id, capacity), s),
    ensures
        s.wf(),
        s@.self_id == id@,
        s@.capacity == if capacity == 0 {
            1
        } else {
            capacity
        },
        forall|name: Seq<char>| #[trigger] kept_for(s@.queues, name).len() == 0,
        forall|name: Seq<char>| #[trigger] kept_for(s@.receipts, name).len() == 0,
        forall|name: Seq<char>| #[trigger] left(s@, name) == 0,
        forall|name: Seq<char>, x: Seq<char>| !#[trigger] remembers(s@.seen, name, x),
        forall|name: Seq<char>, x: Seq<char>| !#[trigger] remembers(s@.receipts_seen, name, x),
{
}

/// What a receipt's signature is over.
pub open spec fn signed_receipt(m: Receipt) -> Seq<u8> {
    crate::wire::text_bytes("ce-mail-receipt-v1"@) + crate::wire::text_bytes(m.body.message_id@)
        + crate::wire::text_bytes(m.body.by@) + seq![
        if m.body.kind == crate::receipt::ReceiptKind::Delivered {
            1u8
        } else {
            2u8
        },
    ] + crate::wire::le64(m.body.at)
}

/// The key by which a receipt is told apart: the message, how it is acknowledged, and by whom.
pub open spec fn key_of(m: Receipt) -> Seq<char> {
    m.body.message_id@ + seq![
        ':',
        if m.body.kind == crate::receipt::ReceiptKind::Delivered {
            '1'
        } else {
            '2'
        },
        ':',
    ] + m.body.by@
}

proof fn lemma_receipt_named(m: Receipt)
    ensures
        crate::receipt::receipt_message(m@.body) == signed_receipt(m),
        crate::receipt::receipt_key(m@.body) == key_of(m),
{
    crate::signing_laws::lemma_receipt_model(m);
}

/// A receipt whose signature holds is stored for a sender with a name unless its key is remembered for
/// the sender, whatever else it says. If it is, it is a duplicate. Without a sender, or where the
/// signature does not hold, it is refused. Only what is stored changes the mailbox.
pub proof fn lemma_deposit_decides<F: Fn(&NodeId, &[u8], &[u8; 64]) -> bool>(
    s: &mut MailboxStore,
    sender: &str,
    m: Receipt,
    check: &F,
    by: &str,
    key: Result<NodeId, MailError>,
    r: Result<Accepted, MailError>,
)
    requires
        by@ == m.body.by@,
        call_ensures(parse_node_id, (by,), key),
        call_ensures(MailboxStore::put_receipt::<F>, (s, sender, m, check), r),
    ensures
        key matches Ok(k) ==> {
            let holds = crate::signing_laws::only_answers(
                *check,
                k@,
                signed_receipt(m),
                m.sig@,
                true,
            );
            let fails = crate::signing_laws::only_answers(
                *check,
                k@,
                signed_receipt(m),
                m.sig@,
                false,
            );
            let known = remembers(old(s)@.receipts_seen, sender@, key_of(m));
            &&& holds && sender@.len() > 0 && !known ==> r == Ok::<Accepted, MailError>(
                Accepted::Stored,
            )
            &&& holds && sender@.len() > 0 && known ==> r == Ok::<Accepted, MailError>(
                Accepted::Duplicate,
            )
            &&& holds && sender@.len() == 0 ==> r == Err::<Accepted, MailError>(
                MailError::NoTargetSender,
            )
            &&& fails ==> r == Err::<Accepted, MailError>(
                MailError::UnverifiableReceipt(SignatureError::Forged),
            )
        },
        key matches Err(why) ==> (why matches MailError::NodeId(w) && r == Err::<
            Accepted,
            MailError,
        >(MailError::UnverifiableReceipt(SignatureError::Signer(w)))),
        r != Ok::<Accepted, MailError>(Accepted::Stored) ==> final(s)@ == old(s)@,
{
    lemma_receipt_named(m);
}

/// What is stored stands last among the sender's receipts. The oldest leave where there is no room, and
/// are forgotten. Nothing else in the mailbox changes, and no inbox does.
pub proof fn lemma_deposit_stores<F: Fn(&NodeId, &[u8], &[u8; 64]) -> bool>(
    s: &mut MailboxStore,
    sender: &str,
    m: Receipt,
    check: &F,
    r: Result<Accepted, MailError>,
)
    requires
        old(s).wf(),
        call_ensures(MailboxStore::put_receipt::<F>, (s, sender, m, check), r),
        r == Ok::<Accepted, MailError>(Accepted::Stored),
    ensures
        ({
            let a = old(s)@;
            let b = final(s)@;
            let before = kept_for(a.receipts, sender@);
            let after = kept_for(b.receipts, sender@);
            let lost = before.len() + 1 - after.len();
            &&& takes_in(before, after, m@, a.capacity)
            &&& same_but_for(a.receipts, b.receipts, sender@)
            &&& same_but_for(a.receipts_seen, b.receipts_seen, sender@)
            &&& forall|x: Seq<char>| #[trigger]
                remembers(b.receipts_seen, sender@, x) <==> (remembers(
                    a.receipts_seen,
                    sender@,
                    x,
                ) || x == key_of(m)) && forall|i: int|
                    0 <= i < lost && i < before.len() ==> crate::receipt::receipt_key(
                        (#[trigger] before[i]).body,
                    ) != x
            &&& a.queues == b.queues
            &&& a.seen == b.seen
            &&& a.gone == b.gone
            &&& a.self_id == b.self_id
            &&& a.capacity == b.capacity
        }),
{
    old(s).lemma_wf_has_capacity();
    lemma_receipt_named(m);
    let a = old(s)@;
    let b = final(s)@;
    let before = kept_for(a.receipts, sender@);
    let all = before.push(m@);
    let over = crate::mailbox::overflow(all, a.capacity);
    let out = all.take(over);
    assert(b == a.with_receipt(sender@, m@));
    assert(b.receipts[sender@] == all.skip(over));
    let ids = crate::mailbox::receipt_keys(out);
    assert forall|x: Seq<char>| #[trigger] remembers(b.receipts_seen, sender@, x) <==> (remembers(
        a.receipts_seen,
        sender@,
        x,
    ) || x == key_of(m)) && forall|i: int|
        0 <= i < over && i < before.len() ==> crate::receipt::receipt_key(
            (#[trigger] before[i]).body,
        ) != x by {
        if ids.to_set().contains(x) {
            let i = choose|i: int| 0 <= i < ids.len() && ids[i] == x;
            assert(out[i] == all[i]);
            if i < before.len() {
                assert(crate::receipt::receipt_key(before[i].body) == x);
            }
        }
        if exists|i: int|
            0 <= i < over && i < before.len() && crate::receipt::receipt_key(
                (#[trigger] before[i]).body,
            ) == x {
            let i = choose|i: int|
                0 <= i < over && i < before.len() && crate::receipt::receipt_key(
                    (#[trigger] before[i]).body,
                ) == x;
            assert(ids[i] == x);
            assert(ids.contains(x));
        }
    }
}

/// Collecting gives all receipts that are kept for the sender, in the order in which they came, and
/// forgets them, so that they can be deposited again. The receipts for others stay, and all mail does.
pub proof fn lemma_collecting_takes_all(s: &mut MailboxStore, sender: &str, r: Vec<Receipt>)
    requires
        call_ensures(MailboxStore::collect_receipts, (s, sender), r),
    ensures
        ({
            let a = old(s)@;
            let b = final(s)@;
            let kept = kept_for(a.receipts, sender@);
            &&& r@.len() == kept.len()
            &&& forall|i: int| 0 <= i < r@.len() ==> (#[trigger] r@[i])@ == kept[i]
            &&& kept_for(b.receipts, sender@).len() == 0
            &&& forall|x: Seq<char>| !#[trigger] remembers(b.receipts_seen, sender@, x)
            &&& same_but_for(a.receipts, b.receipts, sender@)
            &&& same_but_for(a.receipts_seen, b.receipts_seen, sender@)
            &&& a.queues == b.queues
            &&& a.seen == b.seen
            &&& a.gone == b.gone
            &&& a.self_id == b.self_id
            &&& a.capacity == b.capacity
        }),
{
    let kept = kept_for(old(s)@.receipts, sender@);
    let v = r.deep_view();
    assert(v.len() == r@.len());
    assert forall|i: int| 0 <= i < r@.len() implies (#[trigger] r@[i])@ == kept[i] by {
        assert(v[i] == r@[i]@);
    }
}

/// A mailbox that was saved and read back keeps the same mail and receipts at the same cursors, with
/// the same capacity and the same node, and remembers exactly what it keeps.
pub proof fn lemma_saved_reads_back(
    s: &MailboxStore,
    saved: Vec<u8>,
    tried: Result<Vec<u8>, MailError>,
    bytes: &[u8],
    r: Result<MailboxStore, MailError>,
)
    requires
        s.wf(),
        call_ensures(MailboxStore::to_bytes, (s,), saved),
        call_ensures(MailboxStore::try_to_bytes, (s,), tried),
        bytes@ == saved@ || (tried matches Ok(t) && bytes@ == t@),
        call_ensures(MailboxStore::from_bytes, (bytes,), r),
    ensures
        tried is Ok,
        r matches Ok(t) && t.wf() && is_loaded(
            t@,
            s@.self_id,
            s@.queues,
            s@.capacity,
            s@.receipts,
            s@.gone,
        ) && t@.capacity == s@.capacity,
{
    s.lemma_wf_cursors_fit();
    s.lemma_wf_has_capacity();
    crate::mailbox_laws::lemma_stored_mailbox_reads_back(bytes@, s@);
    lemma_rebuilt_is_loaded(s@.self_id, s@.queues, s@.capacity, s@.receipts, s@.gone);
}

/// Whether the mailbox has this node, this mail, these receipts and these cursors, room for as many as
/// were said, or for one if that was none, and remembers just what it keeps.
pub open spec fn is_loaded(
    t: StoreModel,
    self_id: Seq<u8>,
    queues: Map<Seq<char>, Seq<StoredModel>>,
    capacity: usize,
    receipts: Map<Seq<char>, Seq<ReceiptModel>>,
    gone: Map<Seq<char>, usize>,
) -> bool {
    &&& t.self_id == self_id
    &&& t.queues == queues
    &&& t.receipts == receipts
    &&& t.gone == gone
    &&& t.capacity == if capacity == 0 {
        1
    } else {
        capacity
    }
    &&& forall|name: Seq<char>, x: Seq<char>| #[trigger]
        remembers(t.seen, name, x) <==> exists|i: int|
            0 <= i < kept_for(queues, name).len() && crate::envelope::message_id_of(
                (#[trigger] kept_for(queues, name)[i]).envelope.body,
            ) == x
    &&& forall|name: Seq<char>, x: Seq<char>| #[trigger]
        remembers(t.receipts_seen, name, x) <==> exists|i: int|
            0 <= i < kept_for(receipts, name).len() && crate::receipt::receipt_key(
                (#[trigger] kept_for(receipts, name)[i]).body,
            ) == x
}

proof fn lemma_rebuilt_is_loaded(
    self_id: Seq<u8>,
    queues: Map<Seq<char>, Seq<StoredModel>>,
    capacity: usize,
    receipts: Map<Seq<char>, Seq<ReceiptModel>>,
    gone: Map<Seq<char>, usize>,
)
    ensures
        is_loaded(
            crate::mailbox::rebuilt(self_id, queues, capacity, receipts, gone),
            self_id,
            queues,
            capacity,
            receipts,
            gone,
        ),
{
    let t = crate::mailbox::rebuilt(self_id, queues, capacity, receipts, gone);
    assert forall|name: Seq<char>, x: Seq<char>| #[trigger] remembers(t.seen, name, x) <==> exists|
        i: int,
    |
        0 <= i < kept_for(queues, name).len() && crate::envelope::message_id_of(
            (#[trigger] kept_for(queues, name)[i]).envelope.body,
        ) == x by {
        let q = kept_for(queues, name);
        let ids = crate::mailbox::message_ids(q);
        if remembers(t.seen, name, x) {
            assert(ids.contains(x));
            let i = choose|i: int| 0 <= i < ids.len() && ids[i] == x;
            assert(crate::envelope::message_id_of(q[i].envelope.body) == x);
        }
        if exists|i: int|
            0 <= i < q.len() && crate::envelope::message_id_of((#[trigger] q[i]).envelope.body)
                == x {
            let i = choose|i: int|
                0 <= i < q.len() && crate::envelope::message_id_of((#[trigger] q[i]).envelope.body)
                    == x;
            assert(ids[i] == x);
            assert(ids.contains(x));
        }
    }
    assert forall|name: Seq<char>, x: Seq<char>| #[trigger]
        remembers(t.receipts_seen, name, x) <==> exists|i: int|
        0 <= i < kept_for(receipts, name).len() && crate::receipt::receipt_key(
            (#[trigger] kept_for(receipts, name)[i]).body,
        ) == x by {
        let q = kept_for(receipts, name);
        let ids = crate::mailbox::receipt_keys(q);
        if remembers(t.receipts_seen, name, x) {
            assert(ids.contains(x));
            let i = choose|i: int| 0 <= i < ids.len() && ids[i] == x;
            assert(crate::receipt::receipt_key(q[i].body) == x);
        }
        if exists|i: int|
            0 <= i < q.len() && crate::receipt::receipt_key((#[trigger] q[i]).body) == x {
            let i = choose|i: int|
                0 <= i < q.len() && crate::receipt::receipt_key((#[trigger] q[i]).body) == x;
            assert(ids[i] == x);
            assert(ids.contains(x));
        }
    }
}

/// Bytes in the present form load as what they list, as long as the cursors are numbers.
pub proof fn lemma_present_form_loads(
    self_id: Seq<u8>,
    qs: Seq<(Seq<char>, Seq<StoredModel>)>,
    capacity: usize,
    rs: Seq<(Seq<char>, Seq<ReceiptModel>)>,
    cs: Seq<(Seq<char>, usize)>,
    rest: Seq<u8>,
    bytes: &[u8],
    r: Result<MailboxStore, MailError>,
)
    requires
        StoredMailbox::fits((0x4345_4d33, (self_id, (qs, (capacity, (rs, cs)))))),
        bytes@ == StoredMailbox::wire((0x4345_4d33, (self_id, (qs, (capacity, (rs, cs)))))) + rest,
        forall|k: Seq<char>| #[trigger]
            crate::directory::map_of(cs).contains_key(k) ==> crate::directory::map_of(cs)[k]
                + kept_for(crate::directory::map_of(qs), k).len() <= usize::MAX,
        forall|k: Seq<char>| #[trigger]
            kept_for(crate::directory::map_of(qs), k).len() <= usize::MAX,
        call_ensures(MailboxStore::from_bytes, (bytes,), r),
    ensures
        r matches Ok(t) && is_loaded(
            t@,
            self_id,
            crate::directory::map_of(qs),
            capacity,
            crate::directory::map_of(rs),
            crate::directory::map_of(cs),
        ),
{
    let queues = crate::directory::map_of(qs);
    let receipts = crate::directory::map_of(rs);
    let gone = crate::directory::map_of(cs);
    StoredMailbox::lemma_reads_back((0x4345_4d33, (self_id, (qs, (capacity, (rs, cs))))), rest);
    lemma_rebuilt_is_loaded(self_id, queues, capacity, receipts, gone);
    let m = crate::mailbox::rebuilt(self_id, queues, capacity, receipts, gone);
    assert forall|k: Seq<char>| #[trigger] m.base(k) + m.inbox(k).len() <= usize::MAX by {
        assert(m.inbox(k) == kept_for(queues, k));
        if gone.contains_key(k) {
            assert(gone[k] + kept_for(queues, k).len() <= usize::MAX);
        }
    }
}

/// Bytes in the older forms load as what they list: without cursors, and in the oldest without
/// receipts too.
pub proof fn lemma_older_forms_load(
    self_id: Seq<u8>,
    qs: Seq<(Seq<char>, Seq<StoredModel>)>,
    capacity: usize,
    rs: Seq<(Seq<char>, Seq<ReceiptModel>)>,
    newer: &[u8],
    r: Result<MailboxStore, MailError>,
    oldest: &[u8],
    s: Result<MailboxStore, MailError>,
)
    requires
        StoredMailboxV2::fits((0x4345_4d32, (self_id, (qs, (capacity, rs))))),
        newer@ == StoredMailboxV2::wire((0x4345_4d32, (self_id, (qs, (capacity, rs))))),
        call_ensures(MailboxStore::from_bytes, (newer,), r),
        StoredMailboxV1::fits((self_id, (qs, capacity))),
        oldest@ == StoredMailboxV1::wire((self_id, (qs, capacity))),
        self_id.take(4) != crate::wire::le32(0x4345_4d33),
        self_id.take(4) != crate::wire::le32(0x4345_4d32),
        call_ensures(MailboxStore::from_bytes, (oldest,), s),
    ensures
        r matches Ok(t) && is_loaded(
            t@,
            self_id,
            crate::directory::map_of(qs),
            capacity,
            crate::directory::map_of(rs),
            Map::empty(),
        ),
        s matches Ok(t) && is_loaded(
            t@,
            self_id,
            crate::directory::map_of(qs),
            capacity,
            Map::empty(),
            Map::empty(),
        ),
{
    let queues = crate::directory::map_of(qs);
    let receipts = crate::directory::map_of(rs);
    crate::mailbox_laws::lemma_form_with_receipts_loads(self_id, qs, capacity, rs);
    crate::mailbox_laws::lemma_older_form_loads(self_id, qs, capacity);
    lemma_rebuilt_is_loaded(self_id, queues, capacity, receipts, Map::empty());
    lemma_rebuilt_is_loaded(self_id, queues, capacity, Map::empty(), Map::empty());
}

/// Bytes that are too few to name a node hold no mailbox.
pub proof fn lemma_too_short_is_malformed(bytes: &[u8], r: Result<MailboxStore, MailError>)
    requires
        bytes@.len() < 32,
        call_ensures(MailboxStore::from_bytes, (bytes,), r),
    ensures
        r == Err::<MailboxStore, MailError>(MailError::Malformed(Format::MailboxStore)),
{
    if let Some(((magic, _), _)) = StoredMailbox::parse(bytes@) {
        u32::lemma_wrote(bytes@);
    }
}

/// Whether the authority can only answer so when asked whether the node may accept for the recipient.
pub open spec fn authority_only_says<
    F: Fn(&NodeId, &NodeId, &str, &Grant, u64) -> Result<(), String>,
>(
    authorize: F,
    recipient: Seq<u8>,
    node: Seq<u8>,
    chain: Seq<u8>,
    now: u64,
    ok: bool,
) -> bool {
    forall|r: &NodeId, p: &NodeId, a: &str, g: &Grant, o: Result<(), String>|
        r@ == recipient && p@ == node && a@ == "mail:accept"@ && g.chain@ == chain && #[trigger]
            call_ensures(authorize, (r, p, a, g, now), o) ==> (o is Ok) == ok
}

/// A mailbox may accept for a recipient exactly if the authority says so of the recipient, the
/// mailbox's own node, the ability to accept mail, the chain and the time; if not, the reason is the
/// authority's.
pub proof fn lemma_grant_is_put_to_authority<
    F: Fn(&NodeId, &NodeId, &str, &Grant, u64) -> Result<(), String>,
>(
    s: &MailboxStore,
    recipient: &NodeId,
    chain: &Grant,
    now: u64,
    authorize: &F,
    r: Result<(), MailError>,
)
    requires
        call_ensures(
            MailboxStore::check_accept_grant::<F>,
            (s, recipient, chain, now, authorize),
            r,
        ),
    ensures
        authority_only_says(*authorize, recipient@, s@.self_id, chain.chain@, now, true) ==> r
            == Ok::<(), MailError>(()),
        authority_only_says(*authorize, recipient@, s@.self_id, chain.chain@, now, false)
            ==> r matches Err(MailError::NotAuthorized(_)),
        r matches Err(e) ==> e is NotAuthorized && exists|
            n: &NodeId,
            p: &NodeId,
            a: &str,
            g: &Grant,
            o: Result<(), String>,
        |
            n@ == recipient@ && p@ == s@.self_id && a@ == "mail:accept"@ && g.chain@ == chain.chain@
                && #[trigger] call_ensures(*authorize, (n, p, a, g, now), o) && o is Err
                && o->Err_0@ == e->NotAuthorized_0@,
{
}

} // verus!
