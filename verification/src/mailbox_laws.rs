//! What holds of every mailbox, whatever is done to it.

use crate::envelope::EnvelopeModel;
use crate::error::{MailError, SignatureError};
use crate::mailbox::{
    Accepted, CountEntries, MailboxStore, QueueEntries, ReceiptEntries, StoreModel, StoredMailbox,
    StoredMailboxV1, StoredMailboxV2, StoredModel, STORE_MAGIC, STORE_MAGIC_V2,
};
use crate::receipt::ReceiptModel;
use crate::wire::Wire;
use vstd::prelude::*;

verus! {

/// Whether a queue is in order: no more than `capacity` items, none twice, all remembered.
pub open spec fn orderly(ids: Seq<Seq<char>>, seen: Set<Seq<char>>, capacity: usize) -> bool {
    &&& ids.len() <= capacity
    &&& ids.no_duplicates()
    &&& forall|i: int| 0 <= i < ids.len() ==> seen.contains(#[trigger] ids[i])
}

/// Whether a mailbox is tidy: for every node, the envelopes and the receipts that are kept are no
/// more than the capacity, none is kept twice, all are remembered, and every envelope is kept for
/// the recipient that it names.
pub open spec fn tidy(m: StoreModel) -> bool {
    &&& m.capacity >= 1
    &&& forall|k: Seq<char>| #[trigger]
        m.queues.contains_key(k) ==> orderly(
            crate::mailbox::message_ids(m.queues[k]),
            crate::mailbox::names_of(m.seen, k),
            m.capacity,
        )
    &&& forall|k: Seq<char>, i: int|
        m.queues.contains_key(k) && 0 <= i < m.queues[k].len() ==> (
        #[trigger] m.queues[k][i]).envelope.body.to == k
    &&& forall|k: Seq<char>| #[trigger]
        m.receipts.contains_key(k) ==> orderly(
            crate::mailbox::receipt_keys(m.receipts[k]),
            crate::mailbox::names_of(m.receipts_seen, k),
            m.capacity,
        )
}

/// A new mailbox is tidy, and remembers nothing but what it keeps.
pub proof fn lemma_empty_is_tidy(self_id: Seq<u8>, capacity: usize)
    ensures
        ({
            let m = StoreModel::empty(self_id, capacity);
            &&& tidy(m)
            &&& remembers_only_kept(m.queues, by_message_id(), m.seen)
            &&& remembers_only_kept(m.receipts, by_receipt_key(), m.receipts_seen)
        }),
{
    assert(crate::mailbox::message_ids(Seq::empty()).to_set() =~= Set::empty());
    assert(crate::mailbox::receipt_keys(Seq::empty()).to_set() =~= Set::empty());
}

/// Adding a new id at the end of an orderly queue and dropping the oldest beyond the capacity,
/// with their ids forgotten, leaves the queue orderly, with the new id remembered and at its end.
proof fn lemma_orderly_step(
    ids: Seq<Seq<char>>,
    seen: Set<Seq<char>>,
    capacity: usize,
    id: Seq<char>,
)
    requires
        capacity >= 1,
        orderly(ids, seen, capacity),
        !seen.contains(id),
    ensures
        ({
            let all = ids.push(id);
            let over = crate::mailbox::overflow(all, capacity);
            let now = seen.insert(id).difference(all.take(over).to_set());
            orderly(all.skip(over), now, capacity) && now.contains(id)
        }),
{
    let all = ids.push(id);
    let over = crate::mailbox::overflow(all, capacity);
    let kept = all.skip(over);
    let gone = all.take(over);
    let now = seen.insert(id).difference(gone.to_set());
    assert(all.no_duplicates()) by {
        assert forall|i: int, j: int|
            0 <= i < all.len() && 0 <= j < all.len() && i != j implies all[i] != all[j] by {
            if i < ids.len() {
                assert(seen.contains(ids[i]));
            }
            if j < ids.len() {
                assert(seen.contains(ids[j]));
            }
        }
    }
    assert forall|i: int| 0 <= i < kept.len() implies now.contains(#[trigger] kept[i]) by {
        assert(kept[i] == all[over + i]);
        if gone.contains(kept[i]) {
            let j = choose|j: int| 0 <= j < gone.len() && gone[j] == kept[i];
            assert(all[j] == all[over + i]);
        }
        if over + i < ids.len() {
            assert(seen.contains(ids[over + i]));
        }
    }
    assert(kept.last() == id);
    assert(kept[kept.len() - 1] == id);
}

/// Accepting an envelope keeps a mailbox tidy, whatever comes of it.
pub proof fn lemma_accepting_keeps_tidy(
    m: StoreModel,
    e: EnvelopeModel,
    now: u64,
    outcome: Result<(), SignatureError>,
)
    requires
        tidy(m),
    ensures
        tidy(m.accepting(e, now, outcome).0),
{
    let after = m.accepting(e, now, outcome).0;
    if after != m {
        let to = e.body.to;
        let item = StoredModel { envelope: e, stored_at: now };
        let q = m.inbox(to);
        let all = q.push(item);
        let over = crate::mailbox::overflow(all, m.capacity);
        let id = crate::envelope::message_id_of(e.body);
        lemma_orderly_step(
            crate::mailbox::message_ids(q),
            crate::mailbox::names_of(m.seen, to),
            m.capacity,
            id,
        );
        assert(crate::mailbox::message_ids(all) =~= crate::mailbox::message_ids(q).push(id));
        assert(crate::mailbox::message_ids(all.skip(over)) =~= crate::mailbox::message_ids(
            all,
        ).skip(over));
        assert(crate::mailbox::message_ids(all.take(over)) =~= crate::mailbox::message_ids(
            all,
        ).take(over));
        assert forall|k: Seq<char>| #[trigger] after.queues.contains_key(k) implies orderly(
            crate::mailbox::message_ids(after.queues[k]),
            crate::mailbox::names_of(after.seen, k),
            after.capacity,
        ) by {
            if k != to {
                assert(m.queues.contains_key(k));
            }
        }
        assert forall|k: Seq<char>, i: int|
            after.queues.contains_key(k) && 0 <= i < after.queues[k].len() implies (
        #[trigger] after.queues[k][i]).envelope.body.to == k by {
            if k == to {
                assert(after.queues[k][i] == all[over + i]);
                if over + i < q.len() {
                    assert(m.queues[k][over + i].envelope.body.to == k);
                }
            } else {
                assert(m.queues.contains_key(k));
                assert(m.queues[k][i].envelope.body.to == k);
            }
        }
    }
}

/// Depositing a receipt keeps a mailbox tidy, whatever comes of it.
pub proof fn lemma_depositing_keeps_tidy(
    m: StoreModel,
    sender: Seq<char>,
    r: ReceiptModel,
    outcome: Result<(), SignatureError>,
)
    requires
        tidy(m),
    ensures
        tidy(m.depositing(sender, r, outcome).0),
{
    let after = m.depositing(sender, r, outcome).0;
    if after != m {
        let q = crate::mailbox::queue_of(m.receipts, sender);
        let all = q.push(r);
        let over = crate::mailbox::overflow(all, m.capacity);
        let id = crate::receipt::receipt_key(r.body);
        lemma_orderly_step(
            crate::mailbox::receipt_keys(q),
            crate::mailbox::names_of(m.receipts_seen, sender),
            m.capacity,
            id,
        );
        assert(crate::mailbox::receipt_keys(all) =~= crate::mailbox::receipt_keys(q).push(id));
        assert(crate::mailbox::receipt_keys(all.skip(over)) =~= crate::mailbox::receipt_keys(
            all,
        ).skip(over));
        assert(crate::mailbox::receipt_keys(all.take(over)) =~= crate::mailbox::receipt_keys(
            all,
        ).take(over));
        assert forall|k: Seq<char>| #[trigger] after.receipts.contains_key(k) implies orderly(
            crate::mailbox::receipt_keys(after.receipts[k]),
            crate::mailbox::names_of(after.receipts_seen, k),
            after.capacity,
        ) by {
            if k != sender {
                assert(m.receipts.contains_key(k));
            }
        }
    }
}

/// Acknowledging keeps a mailbox tidy.
pub proof fn lemma_acking_keeps_tidy(m: StoreModel, recipient: Seq<char>, cursor: usize)
    requires
        tidy(m),
    ensures
        tidy(m.acking(recipient, cursor)),
{
    let after = m.acking(recipient, cursor);
    let n = m.acked(recipient, cursor) as int;
    assert forall|k: Seq<char>| #[trigger] after.queues.contains_key(k) implies orderly(
        crate::mailbox::message_ids(after.queues[k]),
        crate::mailbox::names_of(after.seen, k),
        after.capacity,
    ) by {
        assert(m.queues.contains_key(k));
        if k == recipient {
            let ids = crate::mailbox::message_ids(m.queues[k]);
            assert(crate::mailbox::message_ids(after.queues[k]) =~= ids.skip(n));
            assert forall|i: int| 0 <= i < ids.skip(n).len() implies crate::mailbox::names_of(
                after.seen,
                k,
            ).contains(#[trigger] ids.skip(n)[i]) by {
                assert(crate::mailbox::names_of(m.seen, k).contains(ids[n + i]));
            }
        }
    }
    assert forall|k: Seq<char>, i: int|
        after.queues.contains_key(k) && 0 <= i < after.queues[k].len() implies (
    #[trigger] after.queues[k][i]).envelope.body.to == k by {
        assert(m.queues.contains_key(k));
        if k == recipient {
            assert(m.queues[k][n + i].envelope.body.to == k);
        } else {
            assert(m.queues[k][i].envelope.body.to == k);
        }
    }
}

/// Collecting receipts keeps a mailbox tidy.
pub proof fn lemma_collecting_keeps_tidy(m: StoreModel, sender: Seq<char>)
    requires
        tidy(m),
    ensures
        tidy(m.collecting(sender)),
{
    let after = m.collecting(sender);
    assert forall|k: Seq<char>| #[trigger] after.receipts.contains_key(k) implies orderly(
        crate::mailbox::receipt_keys(after.receipts[k]),
        crate::mailbox::names_of(after.receipts_seen, k),
        after.capacity,
    ) by {
        assert(m.receipts.contains_key(k));
    }
}

/// Whether what is remembered for every node is exactly what is kept for it.
pub open spec fn remembers_only_kept<T>(
    queues: Map<Seq<char>, Seq<T>>,
    ids: spec_fn(Seq<T>) -> Seq<Seq<char>>,
    seen: Map<Seq<char>, Set<Seq<char>>>,
) -> bool {
    forall|k: Seq<char>| #[trigger]
        crate::mailbox::names_of(seen, k) == ids(crate::mailbox::queue_of(queues, k)).to_set()
}

/// The ids of the envelopes, as a function.
pub open spec fn by_message_id() -> spec_fn(Seq<StoredModel>) -> Seq<Seq<char>> {
    |q: Seq<StoredModel>| crate::mailbox::message_ids(q)
}

/// The keys of the receipts, as a function.
pub open spec fn by_receipt_key() -> spec_fn(Seq<ReceiptModel>) -> Seq<Seq<char>> {
    |q: Seq<ReceiptModel>| crate::mailbox::receipt_keys(q)
}

/// Remembering a new id and forgetting those that were dropped leaves exactly the ids that are
/// kept, and no more than the capacity.
proof fn lemma_exact_step(
    ids: Seq<Seq<char>>,
    seen: Set<Seq<char>>,
    capacity: usize,
    id: Seq<char>,
)
    requires
        capacity >= 1,
        ids.no_duplicates(),
        seen == ids.to_set(),
        !seen.contains(id),
    ensures
        ({
            let all = ids.push(id);
            let over = crate::mailbox::overflow(all, capacity);
            let now = seen.insert(id).difference(all.take(over).to_set());
            now == all.skip(over).to_set() && now.len() <= capacity
        }),
{
    let all = ids.push(id);
    let over = crate::mailbox::overflow(all, capacity);
    let kept = all.skip(over);
    let gone = all.take(over);
    let now = seen.insert(id).difference(gone.to_set());
    assert forall|x: Seq<char>| #[trigger] now.contains(x) == kept.to_set().contains(x) by {
        if now.contains(x) {
            if x == id {
                assert(all[ids.len() as int] == x);
                assert(kept[ids.len() - over] == x);
            } else {
                assert(ids.contains(x));
                let i = choose|i: int| 0 <= i < ids.len() && ids[i] == x;
                assert(all[i] == x);
                if i < over {
                    assert(gone[i] == x);
                } else {
                    assert(kept[i - over] == x);
                }
            }
        }
        if kept.contains(x) {
            let i = choose|i: int| 0 <= i < kept.len() && kept[i] == x;
            assert(all[over + i] == x);
            if over + i < ids.len() {
                assert(ids.contains(ids[over + i]));
            }
            if gone.contains(x) {
                let j = choose|j: int| 0 <= j < gone.len() && gone[j] == x;
                assert(all[j] == x);
                assert(ids[j] == x);
                assert(ids.contains(x));
            }
        }
    }
    assert(now =~= kept.to_set());
    kept.lemma_cardinality_of_set();
}

/// Nothing is remembered but what is kept, as long as nothing is acknowledged: however many
/// envelopes are accepted, no more ids are remembered for a recipient than the capacity.
pub proof fn lemma_accepting_remembers_only_kept(
    m: StoreModel,
    e: EnvelopeModel,
    now: u64,
    outcome: Result<(), SignatureError>,
    k: Seq<char>,
)
    requires
        tidy(m),
        remembers_only_kept(m.queues, by_message_id(), m.seen),
    ensures
        ({
            let after = m.accepting(e, now, outcome).0;
            &&& remembers_only_kept(after.queues, by_message_id(), after.seen)
            &&& crate::mailbox::names_of(after.seen, k).len() <= after.capacity
        }),
{
    let after = m.accepting(e, now, outcome).0;
    lemma_accepting_keeps_tidy(m, e, now, outcome);
    if after != m {
        let to = e.body.to;
        let q = m.inbox(to);
        let all = q.push(StoredModel { envelope: e, stored_at: now });
        let over = crate::mailbox::overflow(all, m.capacity);
        let id = crate::envelope::message_id_of(e.body);
        let ids = crate::mailbox::message_ids(q);
        assert(crate::mailbox::names_of(m.seen, to) == (by_message_id())(q).to_set());
        lemma_exact_step(ids, crate::mailbox::names_of(m.seen, to), m.capacity, id);
        assert(crate::mailbox::message_ids(all) =~= ids.push(id));
        assert(crate::mailbox::message_ids(all.skip(over)) =~= ids.push(id).skip(over));
        assert(crate::mailbox::message_ids(all.take(over)) =~= ids.push(id).take(over));
        assert forall|j: Seq<char>| #[trigger]
            crate::mailbox::names_of(after.seen, j) == (by_message_id())(
                crate::mailbox::queue_of(after.queues, j),
            ).to_set() by {
            if j != to {
                assert(crate::mailbox::names_of(after.seen, j) == crate::mailbox::names_of(
                    m.seen,
                    j,
                ));
            }
        }
    }
    let kept = crate::mailbox::message_ids(after.inbox(k));
    assert(crate::mailbox::names_of(after.seen, k) == (by_message_id())(after.inbox(k)).to_set());
    kept.lemma_cardinality_of_set();
}

/// Of receipts nothing is remembered but what is kept: it is so in a new mailbox, and stays so when
/// receipts are deposited and collected.
pub proof fn lemma_receipts_remembered_are_kept(
    m: StoreModel,
    sender: Seq<char>,
    r: ReceiptModel,
    outcome: Result<(), SignatureError>,
)
    requires
        tidy(m),
        remembers_only_kept(m.receipts, by_receipt_key(), m.receipts_seen),
    ensures
        ({
            let deposited = m.depositing(sender, r, outcome).0;
            let collected = m.collecting(sender);
            &&& remembers_only_kept(deposited.receipts, by_receipt_key(), deposited.receipts_seen)
            &&& remembers_only_kept(collected.receipts, by_receipt_key(), collected.receipts_seen)
        }),
{
    let after = m.depositing(sender, r, outcome).0;
    if after != m {
        let q = crate::mailbox::queue_of(m.receipts, sender);
        let all = q.push(r);
        let over = crate::mailbox::overflow(all, m.capacity);
        let id = crate::receipt::receipt_key(r.body);
        let ids = crate::mailbox::receipt_keys(q);
        assert(crate::mailbox::names_of(m.receipts_seen, sender) == (by_receipt_key())(
            q,
        ).to_set());
        lemma_exact_step(ids, crate::mailbox::names_of(m.receipts_seen, sender), m.capacity, id);
        assert(crate::mailbox::receipt_keys(all) =~= ids.push(id));
        assert(crate::mailbox::receipt_keys(all.skip(over)) =~= ids.push(id).skip(over));
        assert(crate::mailbox::receipt_keys(all.take(over)) =~= ids.push(id).take(over));
        assert forall|j: Seq<char>| #[trigger]
            crate::mailbox::names_of(after.receipts_seen, j) == (by_receipt_key())(
                crate::mailbox::queue_of(after.receipts, j),
            ).to_set() by {
            if j != sender {
                assert(crate::mailbox::names_of(after.receipts_seen, j)
                    == crate::mailbox::names_of(m.receipts_seen, j));
            }
        }
    }
    let gone = m.collecting(sender);
    assert forall|j: Seq<char>| #[trigger]
        crate::mailbox::names_of(gone.receipts_seen, j) == (by_receipt_key())(
            crate::mailbox::queue_of(gone.receipts, j),
        ).to_set() by {
        if j != sender {
            assert(crate::mailbox::names_of(gone.receipts_seen, j) == crate::mailbox::names_of(
                m.receipts_seen,
                j,
            ));
        } else {
            assert(crate::mailbox::receipt_keys(Seq::empty()).to_set() =~= Set::empty());
        }
    }
}

/// Delivery is idempotent: an envelope that was just accepted, or recognised, is recognised when it
/// comes again, and nothing changes.
pub proof fn lemma_redelivery_is_duplicate(m: StoreModel, e: EnvelopeModel, now: u64, later: u64)
    requires
        tidy(m),
        m.accepting(e, now, Ok(())).1 is Ok,
    ensures
        m.accepting(e, now, Ok(())).0.accepting(e, later, Ok(())) == (
            m.accepting(e, now, Ok(())).0,
            Ok::<Accepted, MailError>(Accepted::Duplicate),
        ),
{
    lemma_tidy_remembers_kept(m);
    lemma_accepted_is_not_evicted(m, e, now);
}

/// A message that was accepted and acknowledged is still recognised when it is delivered again.
pub proof fn lemma_redelivery_after_ack_is_duplicate(
    m: StoreModel,
    e: EnvelopeModel,
    recipient: Seq<char>,
    cursor: usize,
    now: u64,
)
    requires
        e.body.to.len() > 0,
        m.has_seen(e),
    ensures
        m.acking(recipient, cursor).accepting(e, now, Ok(())) == (
            m.acking(recipient, cursor),
            Ok::<Accepted, MailError>(Accepted::Duplicate),
        ),
{
}

/// What can be done to a mailbox. The checks of signatures come out as `outcome`.
pub enum Operation {
    Accept { envelope: EnvelopeModel, now: u64, outcome: Result<(), SignatureError> },
    Deposit { sender: Seq<char>, receipt: ReceiptModel, outcome: Result<(), SignatureError> },
    Ack { recipient: Seq<char>, cursor: usize },
    Collect { sender: Seq<char> },
}

/// The mailbox after an operation.
#[verifier::opaque]
pub open spec fn after_operation(m: StoreModel, op: Operation) -> StoreModel {
    match op {
        Operation::Accept { envelope, now, outcome } => m.accepting(envelope, now, outcome).0,
        Operation::Deposit { sender, receipt, outcome } => m.depositing(
            sender,
            receipt,
            outcome,
        ).0,
        Operation::Ack { recipient, cursor } => m.acking(recipient, cursor),
        Operation::Collect { sender } => m.collecting(sender),
    }
}

/// The mailbox after the operations, one after the other.
pub open spec fn after_all(m: StoreModel, ops: Seq<Operation>) -> StoreModel
    decreases ops.len(),
{
    if ops.len() == 0 {
        m
    } else {
        after_operation(after_all(m, ops.drop_last()), ops.last())
    }
}

/// Whether the operation drops the message of `e` from its recipient's queue to make room.
pub open spec fn evicts(m: StoreModel, op: Operation, e: EnvelopeModel) -> bool {
    match op {
        Operation::Accept { envelope, now, outcome } => {
            let item = StoredModel { envelope, stored_at: now };
            &&& m.accepting(envelope, now, outcome).1 == Ok::<Accepted, MailError>(Accepted::Stored)
            &&& envelope.body.to == e.body.to
            &&& crate::mailbox::message_ids(
                crate::mailbox::dropped(m.queues, e.body.to, item, m.capacity),
            ).contains(crate::envelope::message_id_of(e.body))
        },
        _ => false,
    }
}

/// Whether none of the operations, one after the other, drops the message of `e` to make room.
pub open spec fn none_evicts(m: StoreModel, ops: Seq<Operation>, e: EnvelopeModel) -> bool {
    forall|i: int|
        0 <= i < ops.len() ==> !evicts(after_all(m, #[trigger] ops.take(i)), ops[i], e)
}

/// A message stays recognised whatever is done, as long as it is not dropped to make room.
pub proof fn lemma_recognised_stays_so(m: StoreModel, ops: Seq<Operation>, e: EnvelopeModel)
    requires
        m.has_seen(e),
        none_evicts(m, ops, e),
    ensures
        after_all(m, ops).has_seen(e),
    decreases ops.len(),
{
    if ops.len() > 0 {
        let n = ops.len() - 1;
        let front = ops.drop_last();
        reveal(after_operation);
        assert(ops.take(n) =~= front);
        assert forall|i: int| 0 <= i < front.len() implies !evicts(
            after_all(m, #[trigger] front.take(i)),
            front[i],
            e,
        ) by {
            assert(front.take(i) =~= ops.take(i));
        }
        lemma_recognised_stays_so(m, front, e);
        assert(!evicts(after_all(m, front), ops[n], e));
    }
}

/// Delivery is idempotent over any sequence of operations: an envelope that was accepted, or
/// recognised, is recognised when it comes again, and nothing changes, whatever was accepted,
/// deposited, acknowledged or collected in between, as long as the message was not dropped to make
/// room.
pub proof fn lemma_redelivery_is_always_duplicate(
    m: StoreModel,
    e: EnvelopeModel,
    now: u64,
    ops: Seq<Operation>,
    later: u64,
)
    requires
        m.accepting(e, now, Ok(())).1 is Ok,
        !evicts(m, Operation::Accept { envelope: e, now, outcome: Ok(()) }, e),
        none_evicts(m.accepting(e, now, Ok(())).0, ops, e),
    ensures
        ({
            let then = after_all(m.accepting(e, now, Ok(())).0, ops);
            then.accepting(e, later, Ok(())) == (
                then,
                Ok::<Accepted, MailError>(Accepted::Duplicate),
            )
        }),
{
    let stored = m.accepting(e, now, Ok(())).0;
    assert(stored.has_seen(e));
    lemma_recognised_stays_so(stored, ops, e);
}

/// Whether the operation takes the acknowledgement of `r` from what is kept for the sender: the
/// receipts are collected, or it is dropped to make room.
pub open spec fn takes_receipt(
    m: StoreModel,
    op: Operation,
    sender: Seq<char>,
    r: ReceiptModel,
) -> bool {
    match op {
        Operation::Deposit { sender: name, receipt, outcome } => {
            &&& m.depositing(name, receipt, outcome).1 == Ok::<Accepted, MailError>(
                Accepted::Stored,
            )
            &&& name == sender
            &&& crate::mailbox::receipt_keys(
                crate::mailbox::dropped(m.receipts, sender, receipt, m.capacity),
            ).contains(crate::receipt::receipt_key(r.body))
        },
        Operation::Collect { sender: name } => name == sender,
        _ => false,
    }
}

/// Whether none of the operations, one after the other, takes the acknowledgement of `r` from what
/// is kept for the sender.
pub open spec fn none_takes_receipt(
    m: StoreModel,
    ops: Seq<Operation>,
    sender: Seq<char>,
    r: ReceiptModel,
) -> bool {
    forall|i: int|
        0 <= i < ops.len() ==> !takes_receipt(
            after_all(m, #[trigger] ops.take(i)),
            ops[i],
            sender,
            r,
        )
}

/// A receipt stays recognised whatever is done, as long as it is not collected and not dropped to
/// make room.
pub proof fn lemma_receipt_recognised_stays_so(
    m: StoreModel,
    ops: Seq<Operation>,
    sender: Seq<char>,
    r: ReceiptModel,
)
    requires
        m.has_receipt(sender, r),
        none_takes_receipt(m, ops, sender, r),
    ensures
        after_all(m, ops).has_receipt(sender, r),
    decreases ops.len(),
{
    if ops.len() > 0 {
        let n = ops.len() - 1;
        let front = ops.drop_last();
        reveal(after_operation);
        assert(ops.take(n) =~= front);
        assert forall|i: int| 0 <= i < front.len() implies !takes_receipt(
            after_all(m, #[trigger] front.take(i)),
            front[i],
            sender,
            r,
        ) by {
            assert(front.take(i) =~= ops.take(i));
        }
        lemma_receipt_recognised_stays_so(m, front, sender, r);
        assert(!takes_receipt(after_all(m, front), ops[n], sender, r));
    }
}

/// Depositing is idempotent over any sequence of operations: a receipt that was deposited, or
/// recognised, is recognised when it comes again, and nothing changes, whatever was done in between,
/// as long as it was neither collected nor dropped to make room.
pub proof fn lemma_redeposit_is_always_duplicate(
    m: StoreModel,
    sender: Seq<char>,
    r: ReceiptModel,
    ops: Seq<Operation>,
)
    requires
        m.depositing(sender, r, Ok(())).1 is Ok,
        !takes_receipt(m, Operation::Deposit { sender, receipt: r, outcome: Ok(()) }, sender, r),
        none_takes_receipt(m.depositing(sender, r, Ok(())).0, ops, sender, r),
    ensures
        ({
            let then = after_all(m.depositing(sender, r, Ok(())).0, ops);
            then.depositing(sender, r, Ok(())) == (
                then,
                Ok::<Accepted, MailError>(Accepted::Duplicate),
            )
        }),
{
    let stored = m.depositing(sender, r, Ok(())).0;
    assert(stored.has_receipt(sender, r));
    lemma_receipt_recognised_stays_so(stored, ops, sender, r);
}

/// Whether the id of every envelope that is kept, and the key of every receipt, is remembered.
pub open spec fn kept_is_remembered(m: StoreModel) -> bool {
    &&& forall|k: Seq<char>, i: int|
        0 <= i < m.inbox(k).len() ==> crate::mailbox::names_of(m.seen, k).contains(
            crate::envelope::message_id_of((#[trigger] m.inbox(k)[i]).envelope.body),
        )
    &&& forall|k: Seq<char>, i: int|
        0 <= i < crate::mailbox::queue_of(m.receipts, k).len() ==> m.has_receipt(
            k,
            #[trigger] crate::mailbox::queue_of(m.receipts, k)[i],
        )
}

/// Where the kept is remembered, accepting an envelope never drops that envelope itself.
pub proof fn lemma_accepted_is_not_evicted(m: StoreModel, e: EnvelopeModel, now: u64)
    requires
        m.capacity >= 1,
        kept_is_remembered(m),
    ensures
        !evicts(m, Operation::Accept { envelope: e, now, outcome: Ok(()) }, e),
{
    let to = e.body.to;
    let item = StoredModel { envelope: e, stored_at: now };
    let gone = crate::mailbox::dropped(m.queues, to, item, m.capacity);
    let ids = crate::mailbox::message_ids(gone);
    let id = crate::envelope::message_id_of(e.body);
    if ids.contains(id) && !m.has_seen(e) {
        let i = choose|i: int| 0 <= i < ids.len() && ids[i] == id;
        assert(gone[i] == m.inbox(to)[i]);
    }
}

/// Where the kept is remembered, depositing a receipt never drops that receipt itself.
pub proof fn lemma_deposited_is_not_taken(m: StoreModel, sender: Seq<char>, r: ReceiptModel)
    requires
        m.capacity >= 1,
        kept_is_remembered(m),
    ensures
        !takes_receipt(m, Operation::Deposit { sender, receipt: r, outcome: Ok(()) }, sender, r),
{
    let gone = crate::mailbox::dropped(m.receipts, sender, r, m.capacity);
    let keys = crate::mailbox::receipt_keys(gone);
    let key = crate::receipt::receipt_key(r.body);
    if keys.contains(key) && !m.has_receipt(sender, r) {
        let i = choose|i: int| 0 <= i < keys.len() && keys[i] == key;
        assert(gone[i] == crate::mailbox::queue_of(m.receipts, sender)[i]);
    }
}

/// In a tidy mailbox the kept is remembered.
pub proof fn lemma_tidy_remembers_kept(m: StoreModel)
    requires
        tidy(m),
    ensures
        m.capacity >= 1,
        kept_is_remembered(m),
{
    assert forall|k: Seq<char>, i: int| 0 <= i < m.inbox(k).len() implies crate::mailbox::names_of(
        m.seen,
        k,
    ).contains(crate::envelope::message_id_of((#[trigger] m.inbox(k)[i]).envelope.body)) by {
        assert(m.queues.contains_key(k));
        let ids = crate::mailbox::message_ids(m.queues[k]);
        assert(crate::mailbox::names_of(m.seen, k).contains(ids[i]));
    }
    assert forall|k: Seq<char>, i: int|
        0 <= i < crate::mailbox::queue_of(m.receipts, k).len() implies m.has_receipt(
        k,
        #[trigger] crate::mailbox::queue_of(m.receipts, k)[i],
    ) by {
        assert(m.receipts.contains_key(k));
        let keys = crate::mailbox::receipt_keys(m.receipts[k]);
        assert(crate::mailbox::names_of(m.receipts_seen, k).contains(keys[i]));
    }
}

/// In a mailbox that was loaded the kept is remembered, whatever the bytes it was loaded from.
pub proof fn lemma_loaded_remembers_kept(b: Seq<u8>)
    ensures
        crate::mailbox::loaded(b) matches Some(m) ==> m.capacity >= 1 && kept_is_remembered(m),
{
    if let Some(m) = crate::mailbox::loaded(b) {
        assert(m.seen == crate::mailbox::index_of(m.queues));
        assert forall|k: Seq<char>, i: int|
            0 <= i < m.inbox(k).len() implies crate::mailbox::names_of(m.seen, k).contains(
            crate::envelope::message_id_of((#[trigger] m.inbox(k)[i]).envelope.body),
        ) by {
            assert(m.queues.contains_key(k));
            let ids = crate::mailbox::message_ids(m.queues[k]);
            assert(ids.contains(ids[i]));
        }
        assert(m.receipts_seen == crate::mailbox::receipt_index_of(m.receipts));
        assert forall|k: Seq<char>, i: int|
            0 <= i < crate::mailbox::queue_of(m.receipts, k).len() implies m.has_receipt(
            k,
            #[trigger] crate::mailbox::queue_of(m.receipts, k)[i],
        ) by {
            assert(m.receipts.contains_key(k));
            let keys = crate::mailbox::receipt_keys(m.receipts[k]);
            assert(keys.contains(keys[i]));
        }
    }
}

/// A new envelope is the last one kept for its recipient, no more are kept than the capacity, and
/// those dropped for it are the oldest.
pub proof fn lemma_stored_is_kept_within_capacity(m: StoreModel, e: EnvelopeModel, now: u64)
    requires
        m.capacity >= 1,
        m.accepting(e, now, Ok(())).1 == Ok::<Accepted, MailError>(Accepted::Stored),
    ensures
        ({
            let before = m.inbox(e.body.to);
            let after = m.accepting(e, now, Ok(())).0.inbox(e.body.to);
            &&& after.len() <= m.capacity
            &&& after.len() >= 1
            &&& after.last() == (StoredModel { envelope: e, stored_at: now })
            &&& after.drop_last() == before.skip(before.len() - (after.len() - 1))
        }),
{
    let before = m.inbox(e.body.to);
    let all = before.push(StoredModel { envelope: e, stored_at: now });
    let over = crate::mailbox::overflow(all, m.capacity);
    let after = m.accepting(e, now, Ok(())).0.inbox(e.body.to);
    assert(after == all.skip(over));
    assert(after.drop_last() =~= before.skip(over));
}

/// What is dropped to make room is forgotten: the id of an envelope that is no longer kept after
/// another was stored, and that was kept before, is no longer remembered.
pub proof fn lemma_dropped_is_forgotten(m: StoreModel, e: EnvelopeModel, now: u64, i: int)
    requires
        tidy(m),
        m.accepting(e, now, Ok(())).1 == Ok::<Accepted, MailError>(Accepted::Stored),
        0 <= i < m.inbox(e.body.to).len() + 1 - m.capacity,
    ensures
        !crate::mailbox::names_of(m.accepting(e, now, Ok(())).0.seen, e.body.to).contains(
            crate::envelope::message_id_of(m.inbox(e.body.to)[i].envelope.body),
        ),
{
    let to = e.body.to;
    let q = m.inbox(to);
    let all = q.push(StoredModel { envelope: e, stored_at: now });
    let over = crate::mailbox::overflow(all, m.capacity);
    let gone = crate::mailbox::message_ids(all.take(over));
    assert(gone[i] == crate::envelope::message_id_of(q[i].envelope.body));
    assert(gone.contains(gone[i]));
}

/// Storing for one recipient leaves what is kept for every other one.
pub proof fn lemma_recipients_are_apart(
    m: StoreModel,
    e: EnvelopeModel,
    now: u64,
    outcome: Result<(), SignatureError>,
    other: Seq<char>,
)
    requires
        other != e.body.to,
    ensures
        m.accepting(e, now, outcome).0.inbox(other) == m.inbox(other),
        m.accepting(e, now, outcome).0.receipts == m.receipts,
{
}

/// Whatever is refused changes nothing.
pub proof fn lemma_refused_changes_nothing(
    m: StoreModel,
    e: EnvelopeModel,
    now: u64,
    sender: Seq<char>,
    r: ReceiptModel,
    outcome: Result<(), SignatureError>,
)
    ensures
        m.accepting(e, now, outcome).1 is Err ==> m.accepting(e, now, outcome).0 == m,
        m.depositing(sender, r, outcome).1 is Err ==> m.depositing(sender, r, outcome).0 == m,
{
}

/// A page followed by what comes from its cursor on is what comes from the page's start on: pages
/// cover an inbox without gap or overlap. There is more exactly when something follows. A cursor that
/// is not before the first envelope moves on by as much as was read.
pub proof fn lemma_pages_cover(m: StoreModel, recipient: Seq<char>, since: usize, limit: usize)
    requires
        m.cursors_fit(),
    ensures
        ({
            let (page, next, more) = m.paging(recipient, since, limit);
            &&& page + m.reading(recipient, next).0 == m.reading(recipient, since).0
            &&& more <==> m.reading(recipient, next).0.len() > 0
            &&& page.len() <= if limit < 1 {
                1
            } else {
                limit as int
            }
            &&& m.reading(recipient, since).0.len() > 0 ==> page.len() > 0
            &&& m.reading(recipient, since).0.len() > 0 && since >= m.base(recipient) ==> next
                == since + page.len()
            &&& next <= m.reading(recipient, since).1
        }),
{
    let (page, next, more) = m.paging(recipient, since, limit);
    assert(m.base(recipient) + m.inbox(recipient).len() <= usize::MAX);
    assert(page + m.reading(recipient, next).0 =~= m.reading(recipient, since).0);
}

/// Acknowledging removes exactly what reading from the cursor leaves out: what is kept is what is
/// read from the cursor on. Reading from that cursor or a later one gives the same before and after,
/// and the cursor behind the last envelope stays. Acknowledging once more removes nothing.
pub proof fn lemma_ack_frees_what_was_read(
    m: StoreModel,
    recipient: Seq<char>,
    cursor: usize,
    later: usize,
)
    requires
        m.cursors_fit(),
        cursor <= later,
    ensures
        m.acking(recipient, cursor).inbox(recipient) == m.reading(recipient, cursor).0,
        m.acked(recipient, cursor) + m.reading(recipient, cursor).0.len() == m.inbox(
            recipient,
        ).len(),
        m.acking(recipient, cursor).reading(recipient, later) == m.reading(recipient, later),
        m.acking(recipient, cursor).acked(recipient, cursor) == 0,
{
    let after = m.acking(recipient, cursor);
    assert(m.base(recipient) + m.inbox(recipient).len() <= usize::MAX);
    assert(after.inbox(recipient) =~= m.reading(recipient, cursor).0);
    assert(after.reading(recipient, later).0 =~= m.reading(recipient, later).0);
}

/// The envelope that the operation stores for the recipient, if it stores one.
#[verifier::opaque]
pub open spec fn arrival(m: StoreModel, op: Operation, recipient: Seq<char>) -> Seq<StoredModel> {
    match op {
        Operation::Accept { envelope, now, outcome } => if envelope.body.to == recipient
            && m.accepting(envelope, now, outcome).1 == Ok::<Accepted, MailError>(
            Accepted::Stored,
        ) {
            seq![StoredModel { envelope, stored_at: now }]
        } else {
            Seq::empty()
        },
        _ => Seq::empty(),
    }
}

/// The envelopes that the operations, one after the other, store for the recipient, in their order.
pub open spec fn arrivals(m: StoreModel, ops: Seq<Operation>, recipient: Seq<char>) -> Seq<
    StoredModel,
>
    decreases ops.len(),
{
    if ops.len() == 0 {
        Seq::empty()
    } else {
        arrivals(m, ops.drop_last(), recipient) + arrival(
            after_all(m, ops.drop_last()),
            ops.last(),
            recipient,
        )
    }
}

/// After an operation a recipient's queue is what it was and what was stored, without what has left
/// its front, and that is counted.
proof fn lemma_queue_moves_on_by_one(m: StoreModel, op: Operation, recipient: Seq<char>)
    requires
        m.base(recipient) + m.inbox(recipient).len() + 1 <= usize::MAX,
    ensures
        ({
            let after = after_operation(m, op);
            let all = m.inbox(recipient) + arrival(m, op, recipient);
            &&& arrival(m, op, recipient).len() <= 1
            &&& m.base(recipient) <= after.base(recipient) <= m.base(recipient) + all.len()
            &&& after.inbox(recipient) == all.skip(after.base(recipient) - m.base(recipient))
        }),
{
    reveal(after_operation);
    reveal(arrival);
    let after = after_operation(m, op);
    let q = m.inbox(recipient);
    assert(q + Seq::<StoredModel>::empty() =~= q);
    assert(q.skip(0) =~= q);
    match op {
        Operation::Accept { envelope, now, outcome } => {
            if m.accepting(envelope, now, outcome).1 == Ok::<Accepted, MailError>(
                Accepted::Stored,
            ) {
                if envelope.body.to == recipient {
                    let item = StoredModel { envelope, stored_at: now };
                    assert(q + seq![item] =~= q.push(item));
                } else {
                    assert(after.inbox(recipient) == q);
                    assert(after.base(recipient) == m.base(recipient));
                }
            }
        },
        Operation::Ack { recipient: name, cursor } => {
            if name != recipient {
                assert(after.inbox(recipient) == q);
                assert(after.base(recipient) == m.base(recipient));
            }
        },
        _ => {},
    }
}

/// After any operations a recipient's queue is what it was and what was stored since, without what
/// has left its front. What has left is counted, unless there are more envelopes than this machine
/// can count.
pub proof fn lemma_queue_moves_on(m: StoreModel, ops: Seq<Operation>, recipient: Seq<char>)
    requires
        m.base(recipient) + m.inbox(recipient).len() + ops.len() <= usize::MAX,
    ensures
        ({
            let after = after_all(m, ops);
            let stored = arrivals(m, ops, recipient);
            let all = m.inbox(recipient) + stored;
            &&& stored.len() <= ops.len()
            &&& m.base(recipient) <= after.base(recipient) <= m.base(recipient) + all.len()
            &&& after.inbox(recipient) == all.skip(after.base(recipient) - m.base(recipient))
        }),
    decreases ops.len(),
{
    let q = m.inbox(recipient);
    if ops.len() == 0 {
        assert(q + arrivals(m, ops, recipient) =~= q);
        assert(q.skip(0) =~= q);
    } else {
        let front = ops.drop_last();
        lemma_queue_moves_on(m, front, recipient);
        let before = after_all(m, front);
        let after = after_all(m, ops);
        let came = arrival(before, ops.last(), recipient);
        let earlier = q + arrivals(m, front, recipient);
        let n = before.base(recipient) - m.base(recipient);
        let k = after.base(recipient) - before.base(recipient);
        lemma_queue_moves_on_by_one(before, ops.last(), recipient);
        assert(q + arrivals(m, ops, recipient) =~= earlier + came);
        assert((earlier.skip(n) + came).skip(k) =~= (earlier + came).skip(n + k));
    }
}

/// A cursor stays good whatever is done: it was handed out, so that it lies between the first kept
/// envelope and the end of the queue; read from it later, and what comes is what lay behind it then
/// and what was stored since, in their order, without what has been removed from the front of that.
/// It holds up to the number of envelopes that this machine can count.
pub proof fn lemma_cursor_stays_good(
    m: StoreModel,
    ops: Seq<Operation>,
    recipient: Seq<char>,
    cursor: usize,
)
    requires
        m.base(recipient) <= cursor <= m.base(recipient) + m.inbox(recipient).len(),
        m.base(recipient) + m.inbox(recipient).len() + ops.len() <= usize::MAX,
    ensures
        ({
            let after = after_all(m, ops);
            let stored = arrivals(m, ops, recipient);
            let behind = m.reading(recipient, cursor).0 + stored;
            let (got, next) = after.reading(recipient, cursor);
            &&& got == behind.skip(
                if after.base(recipient) <= cursor {
                    0
                } else {
                    after.base(recipient) - cursor
                },
            )
            &&& got.len() <= after.inbox(recipient).len()
            &&& got == after.inbox(recipient).skip(after.inbox(recipient).len() - got.len())
            &&& next == m.reading(recipient, cursor).1 + stored.len()
        }),
{
    lemma_queue_moves_on(m, ops, recipient);
    let after = after_all(m, ops);
    let behind = m.reading(recipient, cursor).0 + arrivals(m, ops, recipient);
    let got = after.reading(recipient, cursor).0;
    let lost: int = if after.base(recipient) <= cursor {
        0
    } else {
        after.base(recipient) - cursor
    };
    assert(got =~= behind.skip(lost));
    assert(got =~= after.inbox(recipient).skip(after.inbox(recipient).len() - got.len()));
}

/// Whether the operations acknowledge for the recipient up to the cursor at most.
pub open spec fn acks_up_to(ops: Seq<Operation>, recipient: Seq<char>, cursor: usize) -> bool {
    forall|i: int|
        0 <= i < ops.len() ==> (#[trigger] ops[i] matches Operation::Ack {
            recipient: name,
            cursor: c,
        } ==> name != recipient || c <= cursor)
}

/// Nothing is missed: whoever reads, keeps the cursor, and reads on from it later gets exactly what
/// was stored in between, whatever was acknowledged up to the cursor meanwhile, as long as what was
/// kept and what came is no more than the capacity.
pub proof fn lemma_reading_on_misses_nothing(
    m: StoreModel,
    ops: Seq<Operation>,
    recipient: Seq<char>,
    since: usize,
)
    requires
        m.base(recipient) + m.inbox(recipient).len() + ops.len() <= usize::MAX,
        acks_up_to(ops, recipient, m.reading(recipient, since).1),
        m.inbox(recipient).len() + arrivals(m, ops, recipient).len() <= m.capacity,
    ensures
        after_all(m, ops).reading(recipient, m.reading(recipient, since).1).0 == arrivals(
            m,
            ops,
            recipient,
        ),
{
    let cursor = m.reading(recipient, since).1;
    lemma_nothing_behind_leaves(m, ops, recipient, cursor);
    lemma_cursor_stays_good(m, ops, recipient, cursor);
    let stored = arrivals(m, ops, recipient);
    assert(m.reading(recipient, cursor).0 + stored =~= stored);
    assert(stored.skip(0) =~= stored);
}

/// Where there is room and no acknowledgement goes beyond the cursor, nothing behind it leaves.
proof fn lemma_nothing_behind_leaves(
    m: StoreModel,
    ops: Seq<Operation>,
    recipient: Seq<char>,
    cursor: usize,
)
    requires
        m.base(recipient) <= cursor,
        m.base(recipient) + m.inbox(recipient).len() + ops.len() <= usize::MAX,
        acks_up_to(ops, recipient, cursor),
        m.inbox(recipient).len() + arrivals(m, ops, recipient).len() <= m.capacity,
    ensures
        after_all(m, ops).base(recipient) <= cursor,
        after_all(m, ops).capacity == m.capacity,
    decreases ops.len(),
{
    if ops.len() > 0 {
        let front = ops.drop_last();
        assert forall|i: int| 0 <= i < front.len() implies (#[trigger] front[i] matches Operation::Ack {
            recipient: name,
            cursor: c,
        } ==> name != recipient || c <= cursor) by {
            assert(front[i] == ops[i]);
        }
        lemma_nothing_behind_leaves(m, front, recipient, cursor);
        lemma_queue_moves_on(m, front, recipient);
        reveal(after_operation);
        reveal(arrival);
        assert(ops.last() == ops[ops.len() - 1]);
    }
}

/// Depositing is idempotent: an acknowledgement that was just deposited, or recognised, is
/// recognised when it comes again, and nothing changes.
pub proof fn lemma_redeposit_is_duplicate(m: StoreModel, sender: Seq<char>, r: ReceiptModel)
    requires
        tidy(m),
        m.depositing(sender, r, Ok(())).1 is Ok,
    ensures
        m.depositing(sender, r, Ok(())).0.depositing(sender, r, Ok(())) == (
            m.depositing(sender, r, Ok(())).0,
            Ok::<Accepted, MailError>(Accepted::Duplicate),
        ),
{
    let after = m.depositing(sender, r, Ok(())).0;
    if !m.has_receipt(sender, r) {
        let q = crate::mailbox::queue_of(m.receipts, sender);
        let all = q.push(r);
        let over = crate::mailbox::overflow(all, m.capacity);
        let id = crate::receipt::receipt_key(r.body);
        lemma_orderly_step(
            crate::mailbox::receipt_keys(q),
            crate::mailbox::names_of(m.receipts_seen, sender),
            m.capacity,
            id,
        );
        assert(crate::mailbox::receipt_keys(all) =~= crate::mailbox::receipt_keys(q).push(id));
        assert(crate::mailbox::receipt_keys(all.take(over)) =~= crate::mailbox::receipt_keys(
            all,
        ).take(over));
        assert(after.has_receipt(sender, r));
    }
}

/// Once collected, receipts are gone: collecting again gives none, and a receipt that was collected
/// can be deposited anew.
pub proof fn lemma_collected_is_gone(m: StoreModel, sender: Seq<char>, r: ReceiptModel)
    requires
        sender.len() > 0,
    ensures
        crate::mailbox::queue_of(m.collecting(sender).receipts, sender).len() == 0,
        m.collecting(sender).depositing(sender, r, Ok(())).1 == Ok::<Accepted, MailError>(
            Accepted::Stored,
        ),
{
}

/// A mailbox reads back from the bytes by which it is stored: its node, its envelopes, its receipts,
/// its counts and its capacity are what they were, and what it remembers is what it keeps.
pub proof fn lemma_stored_mailbox_reads_back(b: Seq<u8>, m: StoreModel)
    requires
        crate::mailbox::stores(b, m),
        m.cursors_fit(),
    ensures
        crate::mailbox::loaded(b) == Some(
            crate::mailbox::rebuilt(m.self_id, m.queues, m.capacity, m.receipts, m.gone),
        ),
{
    let (qs, rs, cs) = choose|
        qs: Seq<(Seq<char>, Seq<StoredModel>)>,
        rs: Seq<(Seq<char>, Seq<ReceiptModel>)>,
        cs: Seq<(Seq<char>, usize)>,
    |
        crate::directory::lists(qs, m.queues) && crate::directory::lists(rs, m.receipts)
            && crate::directory::lists(cs, m.gone) && StoredMailbox::fits(
            crate::mailbox::stored_parts(m, qs, rs, cs),
        ) && b == StoredMailbox::wire(#[trigger] crate::mailbox::stored_parts(m, qs, rs, cs));
    let none = Seq::<u8>::empty();
    assert(b + none =~= b);
    StoredMailbox::lemma_reads_back(crate::mailbox::stored_parts(m, qs, rs, cs), none);
    crate::directory::lemma_map_of_list(qs, m.queues);
    crate::directory::lemma_map_of_list(rs, m.receipts);
    crate::directory::lemma_map_of_list(cs, m.gone);
    let back = crate::mailbox::rebuilt(m.self_id, m.queues, m.capacity, m.receipts, m.gone);
    assert forall|k: Seq<char>| #[trigger] back.base(k) + back.inbox(k).len() <= usize::MAX by {
        assert(m.base(k) + m.inbox(k).len() <= usize::MAX);
    }
}

/// Whether the message of `e` is kept for its recipient.
pub open spec fn keeps_message(m: StoreModel, e: EnvelopeModel) -> bool {
    crate::mailbox::message_ids(m.inbox(e.body.to)).contains(
        crate::envelope::message_id_of(e.body),
    )
}

/// Whether the acknowledgement of `r` is kept for the sender.
pub open spec fn keeps_receipt(m: StoreModel, sender: Seq<char>, r: ReceiptModel) -> bool {
    crate::mailbox::receipt_keys(crate::mailbox::queue_of(m.receipts, sender)).contains(
        crate::receipt::receipt_key(r.body),
    )
}

/// Saving and loading keeps a mailbox: its node, its capacity, its envelopes with their order and
/// times, and its receipts are what they were. Reading from any cursor gives what it gave. An envelope
/// or a receipt that was kept is still recognised.
pub proof fn lemma_saved_mailbox_is_kept(s: &MailboxStore, b: Seq<u8>)
    requires
        s.wf(),
        crate::mailbox::stores(b, s@),
    ensures
        crate::mailbox::loaded(b) is Some,
        ({
            let t = crate::mailbox::loaded(b)->0;
            &&& t.self_id == s@.self_id
            &&& t.capacity == s@.capacity
            &&& t.queues == s@.queues
            &&& t.receipts == s@.receipts
            &&& forall|recipient: Seq<char>, since: usize| #[trigger]
                t.reading(recipient, since) == s@.reading(recipient, since)
            &&& forall|e: EnvelopeModel, now: u64|
                e.body.to.len() > 0 && keeps_message(s@, e) ==> #[trigger] t.accepting(
                    e,
                    now,
                    Ok(()),
                ) == (t, Ok::<Accepted, MailError>(Accepted::Duplicate))
            &&& forall|sender: Seq<char>, r: ReceiptModel|
                sender.len() > 0 && keeps_receipt(s@, sender, r) ==> #[trigger] t.depositing(
                    sender,
                    r,
                    Ok(()),
                ) == (t, Ok::<Accepted, MailError>(Accepted::Duplicate))
        }),
{
    s.lemma_wf_has_capacity();
    s.lemma_wf_cursors_fit();
    lemma_stored_mailbox_reads_back(b, s@);
    let t = crate::mailbox::loaded(b)->0;
    assert forall|e: EnvelopeModel, now: u64|
        e.body.to.len() > 0 && keeps_message(s@, e) implies #[trigger] t.accepting(e, now, Ok(()))
        == (t, Ok::<Accepted, MailError>(Accepted::Duplicate)) by {
        assert(s@.queues.contains_key(e.body.to)) by {
            if !s@.queues.contains_key(e.body.to) {
                assert(s@.inbox(e.body.to).len() == 0);
            }
        }
        assert(t.has_seen(e));
    }
    assert forall|sender: Seq<char>, r: ReceiptModel|
        sender.len() > 0 && keeps_receipt(s@, sender, r) implies #[trigger] t.depositing(
        sender,
        r,
        Ok(()),
    ) == (t, Ok::<Accepted, MailError>(Accepted::Duplicate)) by {
        assert(s@.receipts.contains_key(sender)) by {
            if !s@.receipts.contains_key(sender) {
                assert(crate::mailbox::queue_of(s@.receipts, sender).len() == 0);
            }
        }
        assert(t.has_receipt(sender, r));
    }
}

/// A mailbox that is read back from where a tidy one was stored is tidy.
pub proof fn lemma_reading_back_keeps_tidy(b: Seq<u8>, m: StoreModel)
    requires
        tidy(m),
        m.cursors_fit(),
        crate::mailbox::stores(b, m),
    ensures
        crate::mailbox::loaded(b) matches Some(back) && tidy(back),
{
    lemma_stored_mailbox_reads_back(b, m);
    let back = crate::mailbox::rebuilt(m.self_id, m.queues, m.capacity, m.receipts, m.gone);
    assert forall|k: Seq<char>| #[trigger] back.queues.contains_key(k) implies orderly(
        crate::mailbox::message_ids(back.queues[k]),
        crate::mailbox::names_of(back.seen, k),
        back.capacity,
    ) by {
        let ids = crate::mailbox::message_ids(back.queues[k]);
        assert forall|i: int| 0 <= i < ids.len() implies crate::mailbox::names_of(
            back.seen,
            k,
        ).contains(#[trigger] ids[i]) by {
            assert(ids.contains(ids[i]));
        }
    }
    assert forall|k: Seq<char>| #[trigger] back.receipts.contains_key(k) implies orderly(
        crate::mailbox::receipt_keys(back.receipts[k]),
        crate::mailbox::names_of(back.receipts_seen, k),
        back.capacity,
    ) by {
        let ids = crate::mailbox::receipt_keys(back.receipts[k]);
        assert forall|i: int| 0 <= i < ids.len() implies crate::mailbox::names_of(
            back.receipts_seen,
            k,
        ).contains(#[trigger] ids[i]) by {
            assert(ids.contains(ids[i]));
        }
    }
}

/// What bytes read as a stored mailbox with the number `magic` in front start with.
proof fn lemma_magic_in_front<T: Wire>(b: Seq<u8>, magic: u32)
    requires
        <(u32, T)>::parse(b) matches Some(((m, _), _)) && m == magic,
    ensures
        b.len() >= 4,
        b.take(4) == crate::wire::le32(magic),
{
    <(u32, T)>::lemma_wrote(b);
    crate::wire::lemma_le32_len(magic);
    assert(b.take(4) =~= crate::wire::le32(magic));
}

/// A mailbox stored in the form with receipts, before it was counted what has left, still loads:
/// nothing counts as having left.
pub proof fn lemma_form_with_receipts_loads(
    self_id: Seq<u8>,
    qs: Seq<(Seq<char>, Seq<StoredModel>)>,
    capacity: usize,
    rs: Seq<(Seq<char>, Seq<ReceiptModel>)>,
)
    requires
        StoredMailboxV2::fits((STORE_MAGIC_V2, (self_id, (qs, (capacity, rs))))),
    ensures
        crate::mailbox::loaded(
            StoredMailboxV2::wire((STORE_MAGIC_V2, (self_id, (qs, (capacity, rs))))),
        ) == Some(
            crate::mailbox::rebuilt(
                self_id,
                crate::directory::map_of(qs),
                capacity,
                crate::directory::map_of(rs),
                Map::empty(),
            ),
        ),
{
    let b = StoredMailboxV2::wire((STORE_MAGIC_V2, (self_id, (qs, (capacity, rs)))));
    let none = Seq::<u8>::empty();
    assert(b + none =~= b);
    StoredMailboxV2::lemma_reads_back((STORE_MAGIC_V2, (self_id, (qs, (capacity, rs)))), none);
    u32::lemma_reads_back(STORE_MAGIC_V2, b.skip(4));
    crate::wire::lemma_le32_len(STORE_MAGIC_V2);
    assert(b =~= crate::wire::le32(STORE_MAGIC_V2) + b.skip(4));
}

/// A mailbox stored in the oldest form, without receipts, still loads, with no receipts. Only a node
/// id that starts with one of the magic numbers could be taken for a newer form.
pub proof fn lemma_older_form_loads(
    self_id: Seq<u8>,
    qs: Seq<(Seq<char>, Seq<StoredModel>)>,
    capacity: usize,
)
    requires
        StoredMailboxV1::fits((self_id, (qs, capacity))),
        self_id.take(4) != crate::wire::le32(STORE_MAGIC),
        self_id.take(4) != crate::wire::le32(STORE_MAGIC_V2),
    ensures
        crate::mailbox::loaded(StoredMailboxV1::wire((self_id, (qs, capacity)))) == Some(
            crate::mailbox::rebuilt(
                self_id,
                crate::directory::map_of(qs),
                capacity,
                Map::empty(),
                Map::empty(),
            ),
        ),
{
    let b = StoredMailboxV1::wire((self_id, (qs, capacity)));
    let none = Seq::<u8>::empty();
    assert(b + none =~= b);
    StoredMailboxV1::lemma_reads_back((self_id, (qs, capacity)), none);
    if let Some(((magic, _), _)) = StoredMailbox::parse(b) {
        lemma_magic_in_front::<
            ([u8; 32], (QueueEntries, (usize, (ReceiptEntries, CountEntries)))),
        >(b, magic);
        assert(b.take(4) =~= self_id.take(4));
    }
    if let Some(((magic, _), _)) = StoredMailboxV2::parse(b) {
        lemma_magic_in_front::<([u8; 32], (QueueEntries, (usize, ReceiptEntries)))>(b, magic);
        assert(b.take(4) =~= self_id.take(4));
    }
}

} // verus!
