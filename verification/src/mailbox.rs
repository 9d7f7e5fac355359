//! The mailbox: store-and-forward for recipients who are away.
//!
//! A mailbox keeps, for each recipient, the envelopes that were accepted in the order in which they
//! came, remembers their ids so that a message delivered twice is kept once, and drops the oldest
//! when there are too many. It keeps receipts for senders in the same way. It accepts only for
//! those who granted it the ability to; the grant is checked by whoever knows capability chains.
//!
//! A recipient reads with a cursor. It counts all envelopes that were ever stored for the recipient,
//! those that have left since among them, so that a cursor stays good when envelopes are
//! acknowledged or dropped.

use crate::digest::NodeId;
use crate::directory::{Directory, NameSet};
use crate::envelope::{envelope_signing_bytes, verify_signature, Envelope, EnvelopeModel};
use crate::error::{Format, MailError, SignatureError};
use crate::proto::Grant;
use crate::receipt::{receipt_signing_bytes, Receipt, ReceiptModel};
use crate::wire::Wire;
use vstd::prelude::*;

pub use crate::shared::SharedMailbox;

verus! {

/// The ability that a recipient grants a mailbox: to accept mail addressed to the recipient.
pub const ABILITY_ACCEPT: &'static str = "mail:accept";

/// The number in front of a stored mailbox.
pub const STORE_MAGIC: u32 = 0x4345_4d33;

/// The number in front of a stored mailbox that holds receipts, but not how many envelopes have left.
pub const STORE_MAGIC_V2: u32 = 0x4345_4d32;

/// An envelope that a mailbox keeps, with the time in Unix seconds at which it was accepted.
#[derive(Debug)]
pub struct StoredEnvelope {
    pub envelope: Envelope,
    pub stored_at: u64,
}

/// A kept envelope as mathematical values.
#[verifier::ext_equal]
pub struct StoredModel {
    pub envelope: EnvelopeModel,
    pub stored_at: u64,
}

impl View for StoredEnvelope {
    type V = StoredModel;

    open spec fn view(&self) -> StoredModel {
        StoredModel { envelope: self.envelope@, stored_at: self.stored_at }
    }
}

impl DeepView for StoredEnvelope {
    type V = StoredModel;

    open spec fn deep_view(&self) -> StoredModel {
        self.view()
    }
}

impl Clone for StoredEnvelope {
    fn clone(&self) -> (r: Self)
        ensures
            r@ == self@,
    {
        StoredEnvelope { envelope: self.envelope.clone(), stored_at: self.stored_at }
    }
}

impl Wire for StoredEnvelope {
    open spec fn fits(v: StoredModel) -> bool {
        Envelope::fits(v.envelope)
    }

    open spec fn wire(v: StoredModel) -> Seq<u8> {
        <(Envelope, u64)>::wire((v.envelope, v.stored_at))
    }

    open spec fn parse(b: Seq<u8>) -> Option<(StoredModel, Seq<u8>)> {
        match <(Envelope, u64)>::parse(b) {
            Some(((envelope, stored_at), rest)) => Some(
                (StoredModel { envelope, stored_at }, rest),
            ),
            None => None,
        }
    }

    proof fn lemma_reads_back(v: StoredModel, rest: Seq<u8>) {
        <(Envelope, u64)>::lemma_reads_back((v.envelope, v.stored_at), rest);
    }

    proof fn lemma_wrote(b: Seq<u8>) {
        <(Envelope, u64)>::lemma_wrote(b);
    }

    fn put(&self, out: &mut Vec<u8>) {
        self.envelope.put(out);
        self.stored_at.put(out);
        assert(out@ =~= old(out)@ + Self::wire(self@));
    }

    fn get(bytes: &[u8]) -> (r: Option<(StoredEnvelope, usize)>) {
        match <(Envelope, u64)>::get(bytes) {
            Some(((envelope, stored_at), used)) => Some(
                (StoredEnvelope { envelope, stored_at }, used),
            ),
            None => None,
        }
    }
}

/// What became of something that was handed in.
#[derive(Debug, Clone, Copy, PartialEq, Eq, Structural)]
pub enum Accepted {
    /// It is new and was stored.
    Stored,
    /// It had been handed in before and was not stored again.
    Duplicate,
}

/// A mailbox.
pub struct MailboxStore {
    self_id: NodeId,
    queues: Directory<Vec<StoredEnvelope>>,
    seen: Directory<NameSet>,
    receipts: Directory<Vec<Receipt>>,
    receipts_seen: Directory<NameSet>,
    gone: Directory<usize>,
    capacity_per_recipient: usize,
}

/// A mailbox as mathematical values.
#[verifier::ext_equal]
pub struct StoreModel {
    /// The mailbox's own node id.
    pub self_id: Seq<u8>,
    /// The envelopes kept for each recipient, oldest first.
    pub queues: Map<Seq<char>, Seq<StoredModel>>,
    /// The message ids remembered for each recipient.
    pub seen: Map<Seq<char>, Set<Seq<char>>>,
    /// The receipts kept for each sender, oldest first.
    pub receipts: Map<Seq<char>, Seq<ReceiptModel>>,
    /// The receipt keys remembered for each sender.
    pub receipts_seen: Map<Seq<char>, Set<Seq<char>>>,
    /// How many envelopes have left the front of each recipient's queue.
    pub gone: Map<Seq<char>, usize>,
    /// The largest number of envelopes, and of receipts, that are kept for one node.
    pub capacity: usize,
}

impl View for MailboxStore {
    type V = StoreModel;

    closed spec fn view(&self) -> StoreModel {
        StoreModel {
            self_id: self.self_id@,
            queues: self.queues@,
            seen: self.seen@,
            receipts: self.receipts@,
            receipts_seen: self.receipts_seen@,
            gone: self.gone@,
            capacity: self.capacity_per_recipient,
        }
    }
}

/// What `queues` holds for `name`; nothing if there is no entry.
pub open spec fn queue_of<T>(queues: Map<Seq<char>, Seq<T>>, name: Seq<char>) -> Seq<T> {
    if queues.contains_key(name) {
        queues[name]
    } else {
        Seq::empty()
    }
}

/// What is remembered for `name`; nothing if there is no entry.
pub open spec fn names_of(seen: Map<Seq<char>, Set<Seq<char>>>, name: Seq<char>) -> Set<Seq<char>> {
    if seen.contains_key(name) {
        seen[name]
    } else {
        Set::empty()
    }
}

/// The number of items in front of `all` that are too many for `capacity`.
pub open spec fn overflow<T>(all: Seq<T>, capacity: usize) -> int {
    if all.len() > capacity {
        all.len() - capacity
    } else {
        0
    }
}

/// `item` added to the queue of `name`, and the oldest dropped beyond `capacity`.
pub open spec fn filed<T>(
    queues: Map<Seq<char>, Seq<T>>,
    name: Seq<char>,
    item: T,
    capacity: usize,
) -> Map<Seq<char>, Seq<T>> {
    let all = queue_of(queues, name).push(item);
    queues.insert(name, all.skip(overflow(all, capacity)))
}

/// The items that adding `item` to the queue of `name` drops.
pub open spec fn dropped<T>(
    queues: Map<Seq<char>, Seq<T>>,
    name: Seq<char>,
    item: T,
    capacity: usize,
) -> Seq<T> {
    let all = queue_of(queues, name).push(item);
    all.take(overflow(all, capacity))
}

/// `id` remembered for `name`, and `gone` forgotten.
pub open spec fn noted(
    seen: Map<Seq<char>, Set<Seq<char>>>,
    name: Seq<char>,
    id: Seq<char>,
    gone: Set<Seq<char>>,
) -> Map<Seq<char>, Set<Seq<char>>> {
    seen.insert(name, names_of(seen, name).insert(id).difference(gone))
}

/// How many envelopes have left a queue after `n` more have left it and `kept` remain, when `base` had
/// left before. Where the cursors would no longer be numbers of this machine, the count starts anew.
pub open spec fn moved_on(base: usize, n: int, kept: int) -> usize {
    if base + n + kept <= usize::MAX {
        (base + n) as usize
    } else {
        0
    }
}

/// The ids of the envelopes, in their order.
pub open spec fn message_ids(q: Seq<StoredModel>) -> Seq<Seq<char>> {
    Seq::new(q.len(), |i: int| crate::envelope::message_id_of(q[i].envelope.body))
}

/// The keys of the receipts, in their order.
pub open spec fn receipt_keys(q: Seq<ReceiptModel>) -> Seq<Seq<char>> {
    Seq::new(q.len(), |i: int| crate::receipt::receipt_key(q[i].body))
}

impl StoreModel {
    /// The mailbox of `self_id` with nothing in it.
    pub open spec fn empty(self_id: Seq<u8>, capacity: usize) -> StoreModel {
        StoreModel {
            self_id,
            queues: Map::empty(),
            seen: Map::empty(),
            receipts: Map::empty(),
            receipts_seen: Map::empty(),
            gone: Map::empty(),
            capacity: if capacity < 1 {
                1
            } else {
                capacity
            },
        }
    }

    /// The envelopes kept for the recipient.
    pub open spec fn inbox(self, recipient: Seq<char>) -> Seq<StoredModel> {
        queue_of(self.queues, recipient)
    }

    /// How many envelopes have left the front of the recipient's queue: the cursor of the first one
    /// that is kept.
    pub open spec fn base(self, recipient: Seq<char>) -> usize {
        if self.gone.contains_key(recipient) {
            self.gone[recipient]
        } else {
            0
        }
    }

    /// Whether the cursors of all envelopes, and the cursor behind the last one, are numbers of this
    /// machine.
    pub open spec fn cursors_fit(self) -> bool {
        forall|recipient: Seq<char>| #[trigger]
            self.base(recipient) + self.inbox(recipient).len() <= usize::MAX
    }

    /// Cursors that are numbers of this machine stay so where the envelopes are not touched.
    pub proof fn lemma_same_cursors_fit(self, other: StoreModel)
        requires
            self.cursors_fit(),
            other.queues == self.queues,
            other.gone == self.gone,
        ensures
            other.cursors_fit(),
    {
        assert forall|k: Seq<char>| #[trigger] other.base(k) + other.inbox(k).len()
            <= usize::MAX by {
            assert(self.base(k) + self.inbox(k).len() <= usize::MAX);
        }
    }

    /// The position in the recipient's queue that the cursor stands for: the front, if what it stood
    /// for has left, and the end, if it lies behind the last envelope.
    pub open spec fn position(self, recipient: Seq<char>, cursor: usize) -> int {
        let base = self.base(recipient);
        let n = self.inbox(recipient).len();
        if cursor <= base {
            0
        } else if cursor - base < n {
            cursor - base
        } else {
            n as int
        }
    }

    /// Whether the message was delivered to its recipient before.
    pub open spec fn has_seen(self, e: EnvelopeModel) -> bool {
        names_of(self.seen, e.body.to).contains(crate::envelope::message_id_of(e.body))
    }

    /// The mailbox after a new envelope was stored at the time `now`.
    pub open spec fn with_envelope(self, e: EnvelopeModel, now: u64) -> StoreModel {
        let to = e.body.to;
        let item = StoredModel { envelope: e, stored_at: now };
        let all = self.inbox(to).push(item);
        let over = overflow(all, self.capacity);
        StoreModel {
            queues: filed(self.queues, to, item, self.capacity),
            gone: self.gone.insert(to, moved_on(self.base(to), over, all.len() - over)),
            seen: noted(
                self.seen,
                to,
                crate::envelope::message_id_of(e.body),
                message_ids(dropped(self.queues, to, item, self.capacity)).to_set(),
            ),
            ..self
        }
    }

    /// What accepting the envelope at the time `now` does and gives, when the check of its
    /// signature came out as `outcome`.
    pub open spec fn accepting(
        self,
        e: EnvelopeModel,
        now: u64,
        outcome: Result<(), SignatureError>,
    ) -> (StoreModel, Result<Accepted, MailError>) {
        match outcome {
            Err(why) => (self, Err(MailError::UnverifiableEnvelope(why))),
            Ok(_) => if e.body.to.len() == 0 {
                (self, Err(MailError::NoRecipient))
            } else if self.has_seen(e) {
                (self, Ok(Accepted::Duplicate))
            } else {
                (self.with_envelope(e, now), Ok(Accepted::Stored))
            },
        }
    }

    /// Whether the receipt was deposited for the sender before.
    pub open spec fn has_receipt(self, sender: Seq<char>, r: ReceiptModel) -> bool {
        names_of(self.receipts_seen, sender).contains(crate::receipt::receipt_key(r.body))
    }

    /// The mailbox after a new receipt was stored for the sender.
    pub open spec fn with_receipt(self, sender: Seq<char>, r: ReceiptModel) -> StoreModel {
        StoreModel {
            receipts: filed(self.receipts, sender, r, self.capacity),
            receipts_seen: noted(
                self.receipts_seen,
                sender,
                crate::receipt::receipt_key(r.body),
                receipt_keys(dropped(self.receipts, sender, r, self.capacity)).to_set(),
            ),
            ..self
        }
    }

    /// What depositing the receipt for the sender does and gives, when the check of its signature
    /// came out as `outcome`.
    pub open spec fn depositing(
        self,
        sender: Seq<char>,
        r: ReceiptModel,
        outcome: Result<(), SignatureError>,
    ) -> (StoreModel, Result<Accepted, MailError>) {
        match outcome {
            Err(why) => (self, Err(MailError::UnverifiableReceipt(why))),
            Ok(_) => if sender.len() == 0 {
                (self, Err(MailError::NoTargetSender))
            } else if self.has_receipt(sender, r) {
                (self, Ok(Accepted::Duplicate))
            } else {
                (self.with_receipt(sender, r), Ok(Accepted::Stored))
            },
        }
    }

    /// The envelopes from the cursor on, and the cursor after them.
    pub open spec fn reading(self, recipient: Seq<char>, since: usize) -> (
        Seq<StoredModel>,
        usize,
    ) {
        let q = self.inbox(recipient);
        (q.skip(self.position(recipient, since)), (self.base(recipient) + q.len()) as usize)
    }

    /// At most `limit` envelopes from the cursor on, the cursor after them, and whether there are
    /// more. A limit of 0 counts as 1.
    pub open spec fn paging(self, recipient: Seq<char>, since: usize, limit: usize) -> (
        Seq<StoredModel>,
        usize,
        bool,
    ) {
        let q = self.inbox(recipient);
        let step = if limit < 1 {
            1
        } else {
            limit as int
        };
        let start = self.position(recipient, since);
        let end = if start + step < q.len() {
            start + step
        } else {
            q.len() as int
        };
        (q.subrange(start, end), (self.base(recipient) + end) as usize, end < q.len())
    }

    /// The number of envelopes that an acknowledgement up to the cursor removes.
    pub open spec fn acked(self, recipient: Seq<char>, cursor: usize) -> usize {
        self.position(recipient, cursor) as usize
    }

    /// The mailbox after an acknowledgement up to the cursor.
    pub open spec fn acking(self, recipient: Seq<char>, cursor: usize) -> StoreModel {
        let n = self.position(recipient, cursor);
        if self.queues.contains_key(recipient) {
            StoreModel {
                queues: self.queues.insert(recipient, self.inbox(recipient).skip(n)),
                gone: self.gone.insert(recipient, (self.base(recipient) + n) as usize),
                ..self
            }
        } else {
            self
        }
    }

    /// The mailbox after the sender's receipts were collected.
    pub open spec fn collecting(self, sender: Seq<char>) -> StoreModel {
        StoreModel {
            receipts: self.receipts.remove(sender),
            receipts_seen: self.receipts_seen.remove(sender),
            ..self
        }
    }
}

/// Whether the authority `authorize` can answer `out` when asked whether the chain lets `presenter`
/// accept mail for `recipient` at the time `now`.
pub open spec fn gate_says<F: Fn(&NodeId, &NodeId, &str, &Grant, u64) -> Result<(), String>>(
    authorize: F,
    recipient: Seq<u8>,
    presenter: Seq<u8>,
    chain: Seq<u8>,
    now: u64,
    out: Result<(), Seq<char>>,
) -> bool {
    exists|r: &NodeId, p: &NodeId, a: &str, g: &Grant, o: Result<(), String>|
        r@ == recipient && p@ == presenter && a@ == ABILITY_ACCEPT@ && g@ == chain && out
            == answer_view(o) && #[trigger] call_ensures(authorize, (r, p, a, g, now), o)
}

/// An answer of the authority with its text taken by its view.
pub open spec fn answer_view(o: Result<(), String>) -> Result<(), Seq<char>> {
    match o {
        Ok(_) => Ok(()),
        Err(why) => Err(why@),
    }
}

/// Whether the authority can be asked anything.
pub open spec fn can_authorize<F: Fn(&NodeId, &NodeId, &str, &Grant, u64) -> Result<(), String>>(
    authorize: F,
) -> bool {
    forall|r: &NodeId, p: &NodeId, a: &str, g: &Grant, now: u64| #[trigger]
        call_requires(authorize, (r, p, a, g, now))
}

/// Whether `r` is the authority's answer `out`, with a refusal made a failure of the library.
pub open spec fn is_passed_on(out: Result<(), Seq<char>>, r: Result<(), MailError>) -> bool {
    match out {
        Ok(_) => r == Ok::<(), MailError>(()),
        Err(why) => r matches Err(MailError::NotAuthorized(w)) && w@ == why,
    }
}

/// Asks the authority whether the chain lets `presenter` accept mail for `recipient`.
pub(crate) fn ask_gate<F: Fn(&NodeId, &NodeId, &str, &Grant, u64) -> Result<(), String>>(
    authorize: &F,
    recipient: &NodeId,
    presenter: &NodeId,
    chain: &Grant,
    now: u64,
) -> (r: Result<(), String>)
    requires
        can_authorize(*authorize),
    ensures
        gate_says(*authorize, recipient@, presenter@, chain@, now, answer_view(r)),
{
    let r: Result<(), String> = authorize(recipient, presenter, ABILITY_ACCEPT, chain, now);
    r
}

/// Adds `item` to the queue of `name` and drops the oldest beyond `capacity`, which are returned.
fn file<T: DeepView>(
    queues: &mut Directory<Vec<T>>,
    name: &str,
    item: T,
    capacity: usize,
) -> (evicted: Vec<T>)
    requires
        old(queues).wf(),
    ensures
        final(queues).wf(),
        final(queues)@ == filed(old(queues)@, name@, item.deep_view(), capacity),
        evicted.deep_view() == dropped(old(queues)@, name@, item.deep_view(), capacity),
{
    let ghost start = queues@;
    let ghost all = queue_of(start, name@).push(item.deep_view());
    let mut queue: Vec<T> = match queues.remove(name) {
        Some(q) => q,
        None => Vec::new(),
    };
    assert(queue.deep_view() =~= queue_of(start, name@));
    queue.push(item);
    assert(queue.deep_view() =~= all);
    let mut kept: Vec<T> = Vec::new();
    if queue.len() > capacity {
        let over: usize = queue.len() - capacity;
        kept = queue.split_off(over);
        assert(kept.deep_view() =~= all.skip(over as int));
        assert(queue.deep_view() =~= all.take(over as int));
    } else {
        std::mem::swap(&mut kept, &mut queue);
        assert(kept.deep_view() =~= all.skip(0));
        assert(queue.deep_view() =~= all.take(0));
    }
    queues.insert(name.to_owned(), kept);
    assert(queues@ =~= filed(start, name@, item.deep_view(), capacity));
    queue
}

/// Remembers `id` for `name` and forgets `gone`.
fn note(seen: &mut Directory<NameSet>, name: &str, id: String, gone: &Vec<String>)
    requires
        old(seen).wf(),
    ensures
        final(seen).wf(),
        final(seen)@ == noted(old(seen)@, name@, id@, gone.deep_view().to_set()),
{
    let ghost start = seen@;
    let ghost first = names_of(start, name@).insert(id@);
    let mut names: NameSet = match seen.remove(name) {
        Some(names) => names,
        None => NameSet::new(),
    };
    names.insert(id);
    assert(names@ =~= first);
    let mut i: usize = 0;
    let ghost lost = gone.deep_view();
    assert(names@ =~= first.difference(lost.take(0).to_set()));
    while i < gone.len()
        invariant
            i <= gone@.len(),
            lost == gone.deep_view(),
            names@ == first.difference(lost.take(i as int).to_set()),
        decreases gone@.len() - i,
    {
        names.remove(gone[i].as_str());
        proof {
            let a = lost.take(i as int);
            let b = lost.take(i + 1);
            assert(b =~= a.push(lost[i as int]));
            assert forall|x: Seq<char>| b.contains(x) implies a.contains(x) || x
                == lost[i as int] by {
                let k = choose|k: int| 0 <= k < b.len() && b[k] == x;
                if k < i {
                    assert(a[k] == x);
                }
            }
            assert forall|x: Seq<char>| a.contains(x) || x == lost[i as int] implies b.contains(
                x,
            ) by {
                if x == lost[i as int] {
                    assert(b[i as int] == x);
                } else {
                    let k = choose|k: int| 0 <= k < a.len() && a[k] == x;
                    assert(b[k] == x);
                }
            }
            assert(names@ =~= first.difference(b.to_set()));
        }
        i += 1;
    }
    assert(lost.take(gone@.len() as int) =~= lost);
    seen.insert(name.to_owned(), names);
    assert(seen@ =~= noted(start, name@, id@, lost.to_set()));
}

/// The ids of the envelopes.
fn message_ids_of(q: &Vec<StoredEnvelope>) -> (r: Vec<String>)
    ensures
        r.deep_view() == message_ids(q.deep_view()),
{
    let mut out: Vec<String> = Vec::new();
    let mut i: usize = 0;
    while i < q.len()
        invariant
            i <= q@.len(),
            out@.len() == i,
            forall|k: int|
                0 <= k < i ==> (#[trigger] out@[k])@ == message_ids(q.deep_view())[k],
        decreases q@.len() - i,
    {
        out.push(q[i].envelope.message_id());
        i += 1;
    }
    assert(out.deep_view() =~= message_ids(q.deep_view()));
    out
}

/// The keys of the receipts.
fn receipt_keys_of(q: &Vec<Receipt>) -> (r: Vec<String>)
    ensures
        r.deep_view() == receipt_keys(q.deep_view()),
{
    let mut out: Vec<String> = Vec::new();
    let mut i: usize = 0;
    while i < q.len()
        invariant
            i <= q@.len(),
            out@.len() == i,
            forall|k: int|
                0 <= k < i ==> (#[trigger] out@[k])@ == receipt_keys(q.deep_view())[k],
        decreases q@.len() - i,
    {
        out.push(q[i].dedup_key());
        i += 1;
    }
    assert(out.deep_view() =~= receipt_keys(q.deep_view()));
    out
}

/// The items from position `from` up to position `to`.
fn copy_range(q: &Vec<StoredEnvelope>, from: usize, to: usize) -> (r: Vec<StoredEnvelope>)
    requires
        from <= to <= q@.len(),
    ensures
        r.deep_view() == q.deep_view().subrange(from as int, to as int),
{
    let mut out: Vec<StoredEnvelope> = Vec::new();
    let mut i: usize = from;
    while i < to
        invariant
            from <= i <= to <= q@.len(),
            out@.len() == i - from,
            forall|k: int| 0 <= k < i - from ==> (#[trigger] out@[k])@ == q@[from + k]@,
        decreases to - i,
    {
        out.push(q[i].clone());
        i += 1;
    }
    assert(out.deep_view() =~= q.deep_view().subrange(from as int, to as int));
    out
}

/// The number of envelopes in the queue of `name`.
fn queue_len(queues: &Directory<Vec<StoredEnvelope>>, name: &str) -> (r: usize)
    requires
        queues.wf(),
    ensures
        r == queue_of(queues@, name@).len(),
{
    match queues.get(name) {
        Some(q) => {
            assert(q.deep_view().len() == q@.len());
            q.len()
        },
        None => 0,
    }
}

/// What `counts` holds for `name`; 0 if there is no entry.
fn count_of(counts: &Directory<usize>, name: &str) -> (r: usize)
    requires
        counts.wf(),
    ensures
        r == (if counts@.contains_key(name@) {
            counts@[name@]
        } else {
            0
        }),
{
    match counts.get(name) {
        Some(n) => *n,
        None => 0,
    }
}

impl MailboxStore {
    /// Whether the directories are in order, the capacity lets something be kept, and the cursors
    /// are numbers of this machine.
    pub closed spec fn wf(&self) -> bool {
        &&& self.queues.wf()
        &&& self.seen.wf()
        &&& self.receipts.wf()
        &&& self.receipts_seen.wf()
        &&& self.gone.wf()
        &&& self.capacity_per_recipient >= 1
        &&& self@.cursors_fit()
    }

    /// A mailbox in order has room for something.
    pub proof fn lemma_wf_has_capacity(&self)
        requires
            self.wf(),
        ensures
            self@.capacity >= 1,
    {
    }

    /// The cursors of a mailbox in order are numbers of this machine.
    pub proof fn lemma_wf_cursors_fit(&self)
        requires
            self.wf(),
        ensures
            self@.cursors_fit(),
    {
    }

    /// An empty mailbox of the node `self_id` that keeps up to `capacity_per_recipient` envelopes
    /// for each recipient, and one at least.
    pub fn new(self_id: NodeId, capacity_per_recipient: usize) -> (r: MailboxStore)
        ensures
            r.wf(),
            r@ == StoreModel::empty(self_id@, capacity_per_recipient),
    {
        MailboxStore {
            self_id,
            queues: Directory::new(),
            seen: Directory::new(),
            receipts: Directory::new(),
            receipts_seen: Directory::new(),
            gone: Directory::new(),
            capacity_per_recipient: if capacity_per_recipient < 1 {
                1
            } else {
                capacity_per_recipient
            },
        }
    }

    /// The mailbox's own node id.
    pub fn self_id(&self) -> (r: &NodeId)
        ensures
            r@ == self@.self_id,
    {
        &self.self_id
    }

    /// Asks `authorize` whether `chain` lets this mailbox accept mail for `recipient`: whether it
    /// is a chain that starts at the recipient, grants the ability to accept mail for the
    /// recipient, and ends at this mailbox.
    pub fn check_accept_grant<
        F: Fn(&NodeId, &NodeId, &str, &Grant, u64) -> Result<(), String>,
    >(&self, recipient: &NodeId, chain: &Grant, now: u64, authorize: &F) -> (r: Result<
        (),
        MailError,
    >)
        requires
            can_authorize(*authorize),
        ensures
            exists|out: Result<(), Seq<char>>| #[trigger]
                gate_says(*authorize, recipient@, self@.self_id, chain@, now, out) && is_passed_on(
                    out,
                    r,
                ),
    {
        let answer = ask_gate(authorize, recipient, &self.self_id, chain, now);
        assert(gate_says(
            *authorize,
            recipient@,
            self@.self_id,
            chain@,
            now,
            answer_view(answer),
        ));
        match answer {
            Ok(_) => Ok(()),
            Err(why) => Err(MailError::NotAuthorized(why)),
        }
    }

    /// Accepts an envelope whose signature `check` confirms, for the recipient it names. A message
    /// that was accepted before is not stored again. Whether the mailbox may accept for the
    /// recipient is for the caller to ask first.
    pub fn accept<F: Fn(&NodeId, &[u8], &[u8; 64]) -> bool>(
        &mut self,
        envelope: Envelope,
        now: u64,
        check: &F,
    ) -> (r: Result<Accepted, MailError>)
        requires
            old(self).wf(),
            crate::envelope::can_check(*check),
        ensures
            final(self).wf(),
            exists|outcome: Result<(), SignatureError>| #[trigger]
                crate::envelope::verified_as(
                    *check,
                    envelope@.body.from,
                    crate::envelope::signing_bytes(envelope@.body),
                    envelope@.sig,
                    outcome,
                ) && (final(self)@, r) == old(self)@.accepting(envelope@, now, outcome),
    {
        let ghost before = self@;
        let message = envelope_signing_bytes(&envelope.body);
        let outcome = verify_signature(
            check,
            envelope.body.from.as_str(),
            message.as_slice(),
            &envelope.sig,
        );
        assert(crate::envelope::verified_as(
            *check,
            envelope@.body.from,
            crate::envelope::signing_bytes(envelope@.body),
            envelope@.sig,
            outcome,
        ));
        match outcome {
            Err(why) => {
                return Err(MailError::UnverifiableEnvelope(why));
            },
            Ok(_) => {},
        }
        let to: String = envelope.body.to.clone();
        if to.as_str().is_empty() {
            return Err(MailError::NoRecipient);
        }
        let mid = envelope.message_id();
        match self.seen.get(to.as_str()) {
            Some(names) => {
                if names.contains(mid.as_str()) {
                    return Ok(Accepted::Duplicate);
                }
            },
            None => {},
        }
        let evicted = file(
            &mut self.queues,
            to.as_str(),
            StoredEnvelope { envelope, stored_at: now },
            self.capacity_per_recipient,
        );
        let lost = message_ids_of(&evicted);
        note(&mut self.seen, to.as_str(), mid, &lost);
        let kept: usize = queue_len(&self.queues, to.as_str());
        let base: usize = count_of(&self.gone, to.as_str());
        let over: usize = evicted.len();
        let moved: usize = if over <= usize::MAX - base && kept <= usize::MAX - base - over {
            base + over
        } else {
            0
        };
        self.gone.insert(to, moved);
        proof {
            let all = before.inbox(to@).push(StoredModel { envelope: envelope@, stored_at: now });
            assert(over == evicted.deep_view().len());
            assert(over == overflow(all, before.capacity));
            assert(kept == all.len() - over);
            assert(self@ =~= before.with_envelope(envelope@, now));
            assert forall|k: Seq<char>| #[trigger]
                self@.base(k) + self@.inbox(k).len() <= usize::MAX by {
                if k != envelope@.body.to {
                    assert(self@.base(k) == before.base(k));
                    assert(self@.inbox(k) == before.inbox(k));
                }
            }
        }
        Ok(Accepted::Stored)
    }

    /// The number of envelopes kept for the recipient.
    pub fn pending_count(&self, recipient_hex: &str) -> (r: usize)
        requires
            self.wf(),
        ensures
            r == self@.inbox(recipient_hex@).len(),
    {
        queue_len(&self.queues, recipient_hex)
    }

    /// The position in the recipient's queue that the cursor stands for.
    fn position_of(&self, recipient_hex: &str, cursor: usize) -> (r: usize)
        requires
            self.wf(),
        ensures
            r == self@.position(recipient_hex@, cursor),
            r <= self@.inbox(recipient_hex@).len(),
    {
        let base: usize = count_of(&self.gone, recipient_hex);
        let n: usize = self.pending_count(recipient_hex);
        if cursor <= base {
            0
        } else if cursor - base < n {
            cursor - base
        } else {
            n
        }
    }

    /// The recipient's envelopes from position `start` up to position `end`.
    fn copy_kept(&self, recipient_hex: &str, start: usize, end: usize) -> (r: Vec<StoredEnvelope>)
        requires
            self.wf(),
            start <= end <= self@.inbox(recipient_hex@).len(),
        ensures
            r.deep_view() == self@.inbox(recipient_hex@).subrange(start as int, end as int),
    {
        match self.queues.get(recipient_hex) {
            Some(q) => copy_range(q, start, end),
            None => {
                let none: Vec<StoredEnvelope> = Vec::new();
                assert(none.deep_view() =~= self@.inbox(recipient_hex@).subrange(0, 0));
                none
            },
        }
    }

    /// Reads the envelopes from the cursor `since` on, and the cursor after them, from which to read
    /// on the next time: whatever was acknowledged or dropped meanwhile, that gives what came since.
    /// Nothing is removed.
    pub fn read_from(&self, recipient_hex: &str, since: usize) -> (r: (Vec<StoredEnvelope>, usize))
        requires
            self.wf(),
        ensures
            (r.0.deep_view(), r.1) == self@.reading(recipient_hex@, since),
    {
        let n: usize = self.pending_count(recipient_hex);
        let start: usize = self.position_of(recipient_hex, since);
        let base: usize = count_of(&self.gone, recipient_hex);
        let kept = self.copy_kept(recipient_hex, start, n);
        proof {
            let q = self@.inbox(recipient_hex@);
            assert(q.subrange(start as int, n as int) =~= q.skip(start as int));
            assert(self@.base(recipient_hex@) + q.len() <= usize::MAX);
        }
        (kept, base + n)
    }

    /// Reads at most `limit` envelopes from the cursor `since` on; a limit of 0 counts as 1.
    /// Returns them with the cursor after them and whether there are more. Nothing is removed.
    pub fn read_page(&self, recipient_hex: &str, since: usize, limit: usize) -> (r: (
        Vec<StoredEnvelope>,
        usize,
        bool,
    ))
        requires
            self.wf(),
        ensures
            (r.0.deep_view(), r.1, r.2) == self@.paging(recipient_hex@, since, limit),
    {
        let step: usize = if limit < 1 {
            1
        } else {
            limit
        };
        let n: usize = self.pending_count(recipient_hex);
        let start: usize = self.position_of(recipient_hex, since);
        let base: usize = count_of(&self.gone, recipient_hex);
        let end: usize = if step < n - start {
            start + step
        } else {
            n
        };
        assert(self@.base(recipient_hex@) + self@.inbox(recipient_hex@).len() <= usize::MAX);
        (self.copy_kept(recipient_hex, start, end), base + end, end < n)
    }

    /// Deposits a receipt whose signature `check` confirms, for the sender `for_sender_hex` to
    /// collect. The same acknowledgement is not stored again.
    pub fn put_receipt<F: Fn(&NodeId, &[u8], &[u8; 64]) -> bool>(
        &mut self,
        for_sender_hex: &str,
        receipt: Receipt,
        check: &F,
    ) -> (r: Result<Accepted, MailError>)
        requires
            old(self).wf(),
            crate::envelope::can_check(*check),
        ensures
            final(self).wf(),
            exists|outcome: Result<(), SignatureError>| #[trigger]
                crate::envelope::verified_as(
                    *check,
                    receipt@.body.by,
                    crate::receipt::receipt_message(receipt@.body),
                    receipt@.sig,
                    outcome,
                ) && (final(self)@, r) == old(self)@.depositing(for_sender_hex@, receipt@, outcome),
    {
        let ghost before = self@;
        let message = receipt_signing_bytes(&receipt.body);
        let outcome = verify_signature(
            check,
            receipt.body.by.as_str(),
            message.as_slice(),
            &receipt.sig,
        );
        assert(crate::envelope::verified_as(
            *check,
            receipt@.body.by,
            crate::receipt::receipt_message(receipt@.body),
            receipt@.sig,
            outcome,
        ));
        match outcome {
            Err(why) => {
                return Err(MailError::UnverifiableReceipt(why));
            },
            Ok(_) => {},
        }
        if for_sender_hex.is_empty() {
            return Err(MailError::NoTargetSender);
        }
        let key = receipt.dedup_key();
        match self.receipts_seen.get(for_sender_hex) {
            Some(names) => {
                if names.contains(key.as_str()) {
                    return Ok(Accepted::Duplicate);
                }
            },
            None => {},
        }
        let evicted = file(
            &mut self.receipts,
            for_sender_hex,
            receipt,
            self.capacity_per_recipient,
        );
        let gone = receipt_keys_of(&evicted);
        note(&mut self.receipts_seen, for_sender_hex, key, &gone);
        assert(self@ =~= before.with_receipt(for_sender_hex@, receipt@));
        proof {
            before.lemma_same_cursors_fit(self@);
        }
        Ok(Accepted::Stored)
    }

    /// The number of receipts kept for the sender.
    pub fn receipt_count(&self, sender_hex: &str) -> (r: usize)
        requires
            self.wf(),
        ensures
            r == queue_of(self@.receipts, sender_hex@).len(),
    {
        match self.receipts.get(sender_hex) {
            Some(q) => q.len(),
            None => 0,
        }
    }

    /// Hands out the receipts for the sender and forgets them.
    pub fn collect_receipts(&mut self, sender_hex: &str) -> (r: Vec<Receipt>)
        requires
            old(self).wf(),
        ensures
            final(self).wf(),
            final(self)@ == old(self)@.collecting(sender_hex@),
            r.deep_view() == queue_of(old(self)@.receipts, sender_hex@),
    {
        let ghost before = self@;
        let _ = self.receipts_seen.remove(sender_hex);
        let out = match self.receipts.remove(sender_hex) {
            Some(q) => q,
            None => Vec::new(),
        };
        assert(out.deep_view() =~= queue_of(before.receipts, sender_hex@));
        assert(self@ =~= before.collecting(sender_hex@));
        proof {
            before.lemma_same_cursors_fit(self@);
        }
        out
    }

    /// Removes the recipient's envelopes before the cursor, and all of them if it lies behind the
    /// last. Returns how many were removed. Cursors stay good: reading from one that is not before
    /// this gives the same as it did.
    pub fn ack(&mut self, recipient_hex: &str, up_to_cursor: usize) -> (r: usize)
        requires
            old(self).wf(),
        ensures
            final(self).wf(),
            final(self)@ == old(self)@.acking(recipient_hex@, up_to_cursor),
            r == old(self)@.acked(recipient_hex@, up_to_cursor),
    {
        let ghost before = self@;
        let ghost name = recipient_hex@;
        let n: usize = self.position_of(recipient_hex, up_to_cursor);
        let base: usize = count_of(&self.gone, recipient_hex);
        assert(before.base(name) + before.inbox(name).len() <= usize::MAX);
        match self.queues.get_mut(recipient_hex) {
            Some(q) => {
                let ghost all = q.deep_view();
                let mut kept = q.split_off(n);
                assert(kept.deep_view() =~= all.skip(n as int));
                std::mem::swap(q, &mut kept);
            },
            None => {
                return n;
            },
        }
        self.gone.insert(recipient_hex.to_owned(), base + n);
        proof {
            assert(self@ =~= before.acking(name, up_to_cursor));
            assert forall|k: Seq<char>| #[trigger]
                self@.base(k) + self@.inbox(k).len() <= usize::MAX by {
                if k != name {
                    assert(self@.base(k) == before.base(k));
                    assert(self@.inbox(k) == before.inbox(k));
                }
            }
        }
        n
    }
}

/// The kept envelopes as they are written: the names of the recipients with their queues.
pub type QueueEntries = Vec<(String, Vec<StoredEnvelope>)>;

/// The kept receipts as they are written: the names of the senders with their receipts.
pub type ReceiptEntries = Vec<(String, Vec<Receipt>)>;

/// How many envelopes have left as it is written: the names of the recipients with the numbers.
pub type CountEntries = Vec<(String, usize)>;

/// A stored mailbox: the magic number, the node id, the envelopes, the capacity, the receipts and how
/// many envelopes have left.
pub type StoredMailbox = (
    u32,
    ([u8; 32], (QueueEntries, (usize, (ReceiptEntries, CountEntries)))),
);

/// A stored mailbox from before it was known how many envelopes have left: the magic number, the node
/// id, the envelopes, the capacity and the receipts.
pub type StoredMailboxV2 = (u32, ([u8; 32], (QueueEntries, (usize, ReceiptEntries))));

/// A stored mailbox from before there were receipts: the node id, the envelopes and the capacity.
pub type StoredMailboxV1 = ([u8; 32], (QueueEntries, usize));

/// The names with the set of the ids of their envelopes.
pub open spec fn index_of(queues: Map<Seq<char>, Seq<StoredModel>>) -> Map<
    Seq<char>,
    Set<Seq<char>>,
> {
    Map::new(
        |k: Seq<char>| queues.contains_key(k),
        |k: Seq<char>| message_ids(queues[k]).to_set(),
    )
}

/// The names with the set of the keys of their receipts.
pub open spec fn receipt_index_of(receipts: Map<Seq<char>, Seq<ReceiptModel>>) -> Map<
    Seq<char>,
    Set<Seq<char>>,
> {
    Map::new(
        |k: Seq<char>| receipts.contains_key(k),
        |k: Seq<char>| receipt_keys(receipts[k]).to_set(),
    )
}

/// The mailbox made of its stored parts: what is remembered is what is kept.
pub open spec fn rebuilt(
    self_id: Seq<u8>,
    queues: Map<Seq<char>, Seq<StoredModel>>,
    capacity: usize,
    receipts: Map<Seq<char>, Seq<ReceiptModel>>,
    gone: Map<Seq<char>, usize>,
) -> StoreModel {
    StoreModel {
        self_id,
        queues,
        seen: index_of(queues),
        receipts,
        receipts_seen: receipt_index_of(receipts),
        gone,
        capacity: if capacity < 1 {
            1
        } else {
            capacity
        },
    }
}

/// The parts by which the mailbox `m` is stored, when its envelopes, its receipts and its counts are
/// listed as `qs`, `rs` and `cs`.
pub open spec fn stored_parts(
    m: StoreModel,
    qs: Seq<(Seq<char>, Seq<StoredModel>)>,
    rs: Seq<(Seq<char>, Seq<ReceiptModel>)>,
    cs: Seq<(Seq<char>, usize)>,
) -> (
    u32,
    (
        Seq<u8>,
        (
            Seq<(Seq<char>, Seq<StoredModel>)>,
            (usize, (Seq<(Seq<char>, Seq<ReceiptModel>)>, Seq<(Seq<char>, usize)>)),
        ),
    ),
) {
    (STORE_MAGIC, (m.self_id, (qs, (m.capacity, (rs, cs)))))
}

/// Whether `b` is how the mailbox `m` is stored: its envelopes, its receipts and its counts, each
/// listed in some order, between the other parts.
pub open spec fn stores(b: Seq<u8>, m: StoreModel) -> bool {
    exists|
        qs: Seq<(Seq<char>, Seq<StoredModel>)>,
        rs: Seq<(Seq<char>, Seq<ReceiptModel>)>,
        cs: Seq<(Seq<char>, usize)>,
    |
        crate::directory::lists(qs, m.queues) && crate::directory::lists(rs, m.receipts)
            && crate::directory::lists(cs, m.gone) && StoredMailbox::fits(
            stored_parts(m, qs, rs, cs),
        ) && b == StoredMailbox::wire(#[trigger] stored_parts(m, qs, rs, cs))
}

/// The mailbox that the bytes hold in the present form, if they hold one whose cursors are numbers of
/// this machine.
pub open spec fn loaded_now(b: Seq<u8>) -> Option<StoreModel> {
    match StoredMailbox::parse(b) {
        Some(((magic, (self_id, (qs, (capacity, (rs, cs))))), _)) => {
            let m = rebuilt(
                self_id,
                crate::directory::map_of(qs),
                capacity,
                crate::directory::map_of(rs),
                crate::directory::map_of(cs),
            );
            if magic == STORE_MAGIC && m.cursors_fit() {
                Some(m)
            } else {
                None
            }
        },
        None => None,
    }
}

/// The mailbox that the bytes hold in one of the older forms, if any: in that with receipts, or else
/// in that without. Nothing counts as having left.
pub open spec fn loaded_older(b: Seq<u8>) -> Option<StoreModel> {
    match StoredMailboxV2::parse(b) {
        Some(((magic, (self_id, (qs, (capacity, rs)))), _)) if magic == STORE_MAGIC_V2 => Some(
            rebuilt(
                self_id,
                crate::directory::map_of(qs),
                capacity,
                crate::directory::map_of(rs),
                Map::empty(),
            ),
        ),
        _ => match StoredMailboxV1::parse(b) {
            Some(((self_id, (qs, capacity)), _)) => Some(
                rebuilt(
                    self_id,
                    crate::directory::map_of(qs),
                    capacity,
                    Map::empty(),
                    Map::empty(),
                ),
            ),
            None => None,
        },
    }
}

/// The mailbox that the bytes hold, if any: in the present form, or else in an older one.
pub open spec fn loaded(b: Seq<u8>) -> Option<StoreModel> {
    match loaded_now(b) {
        Some(m) => Some(m),
        None => loaded_older(b),
    }
}

/// The ids as a set.
fn name_set(ids: Vec<String>) -> (r: NameSet)
    ensures
        r@ == ids.deep_view().to_set(),
{
    let ghost all = ids.deep_view();
    let mut out = NameSet::new();
    let mut i: usize = 0;
    assert(out@ =~= all.take(0).to_set());
    while i < ids.len()
        invariant
            i <= ids@.len(),
            all == ids.deep_view(),
            forall|x: Seq<char>| out@.contains(x) <==> all.take(i as int).contains(x),
        decreases ids@.len() - i,
    {
        out.insert(ids[i].clone());
        proof {
            let a = all.take(i as int);
            let b = all.take(i + 1);
            assert(b =~= a.push(all[i as int]));
            assert forall|x: Seq<char>| out@.contains(x) <==> b.contains(x) by {
                if x == all[i as int] {
                    assert(b[i as int] == x);
                } else if a.contains(x) {
                    let k = choose|k: int| 0 <= k < a.len() && a[k] == x;
                    assert(b[k] == x);
                } else if b.contains(x) {
                    let k = choose|k: int| 0 <= k < b.len() && b[k] == x;
                    assert(a[k] == x);
                }
            }
        }
        i += 1;
    }
    assert(all.take(ids@.len() as int) =~= all);
    assert(out@ =~= all.to_set());
    out
}

/// What is remembered of the kept envelopes.
fn index_queues(queues: &Directory<Vec<StoredEnvelope>>) -> (r: Directory<NameSet>)
    requires
        queues.wf(),
    ensures
        r.wf(),
        r@ == index_of(queues@),
{
    proof {
        queues.lemma_listed();
    }
    let ghost all = queues.listed();
    let mut out: Directory<NameSet> = Directory::new();
    let mut i: usize = 0;
    let n: usize = queues.len();
    while i < n
        invariant
            i <= n,
            n == all.len(),
            all == queues.listed(),
            crate::directory::lists(all, queues@),
            out.wf(),
            forall|k: int|
                0 <= k < i ==> out@.contains_key((#[trigger] all[k]).0) && out@[all[k].0]
                    == message_ids(all[k].1).to_set(),
            forall|k: Seq<char>| #[trigger] out@.contains_key(k) ==> queues@.contains_key(k),
        decreases n - i,
    {
        let ids = name_set(message_ids_of(queues.value_at(i)));
        out.insert(queues.name_at(i).clone(), ids);
        assert forall|k: int| 0 <= k < i + 1 implies out@.contains_key((#[trigger] all[k]).0)
            && out@[all[k].0] == message_ids(all[k].1).to_set() by {
            if k < i {
                assert(all[k].0 != all[i as int].0);
            }
        }
        i += 1;
    }
    assert(out@ =~= index_of(queues@));
    out
}

/// What is remembered of the kept receipts.
fn index_receipts(receipts: &Directory<Vec<Receipt>>) -> (r: Directory<NameSet>)
    requires
        receipts.wf(),
    ensures
        r.wf(),
        r@ == receipt_index_of(receipts@),
{
    proof {
        receipts.lemma_listed();
    }
    let ghost all = receipts.listed();
    let mut out: Directory<NameSet> = Directory::new();
    let mut i: usize = 0;
    let n: usize = receipts.len();
    while i < n
        invariant
            i <= n,
            n == all.len(),
            all == receipts.listed(),
            crate::directory::lists(all, receipts@),
            out.wf(),
            forall|k: int|
                0 <= k < i ==> out@.contains_key((#[trigger] all[k]).0) && out@[all[k].0]
                    == receipt_keys(all[k].1).to_set(),
            forall|k: Seq<char>| #[trigger] out@.contains_key(k) ==> receipts@.contains_key(k),
        decreases n - i,
    {
        let ids = name_set(receipt_keys_of(receipts.value_at(i)));
        out.insert(receipts.name_at(i).clone(), ids);
        assert forall|k: int| 0 <= k < i + 1 implies out@.contains_key((#[trigger] all[k]).0)
            && out@[all[k].0] == receipt_keys(all[k].1).to_set() by {
            if k < i {
                assert(all[k].0 != all[i as int].0);
            }
        }
        i += 1;
    }
    assert(out@ =~= receipt_index_of(receipts@));
    out
}

/// Whether the cursors of all envelopes are numbers of this machine, when `gone` have left.
fn cursors_are_numbers(
    queues: &Directory<Vec<StoredEnvelope>>,
    gone: &Directory<usize>,
) -> (r: bool)
    requires
        queues.wf(),
        gone.wf(),
    ensures
        r == forall|k: Seq<char>| #[trigger]
            gone@.contains_key(k) ==> gone@[k] + queue_of(queues@, k).len() <= usize::MAX,
{
    proof {
        gone.lemma_listed();
    }
    let ghost all = gone.listed();
    let n: usize = gone.len();
    let mut i: usize = 0;
    while i < n
        invariant
            i <= n,
            n == all.len(),
            all == gone.listed(),
            gone.wf(),
            queues.wf(),
            crate::directory::lists(all, gone@),
            forall|k: int|
                0 <= k < i ==> (#[trigger] all[k]).1 + queue_of(queues@, all[k].0).len()
                    <= usize::MAX,
        decreases n - i,
    {
        let kept: usize = queue_len(queues, gone.name_at(i).as_str());
        if *gone.value_at(i) > usize::MAX - kept {
            assert(gone@.contains_key(all[i as int].0));
            return false;
        }
        i += 1;
    }
    assert forall|k: Seq<char>| #[trigger] gone@.contains_key(k) implies gone@[k] + queue_of(
        queues@,
        k,
    ).len() <= usize::MAX by {
        let j = choose|j: int| 0 <= j < all.len() && (#[trigger] all[j]).0 == k;
        assert(all[j].1 == gone@[k]);
    }
    true
}

impl MailboxStore {
    /// Makes a mailbox of its stored parts, if its cursors are numbers of this machine.
    fn rebuild(
        self_id: NodeId,
        queues: QueueEntries,
        capacity_per_recipient: usize,
        receipts: ReceiptEntries,
        gone: CountEntries,
    ) -> (r: Option<MailboxStore>)
        ensures
            ({
                let m = rebuilt(
                    self_id@,
                    crate::directory::map_of(queues.deep_view()),
                    capacity_per_recipient,
                    crate::directory::map_of(receipts.deep_view()),
                    crate::directory::map_of(gone.deep_view()),
                );
                match r {
                    Some(s) => s.wf() && s@ == m && m.cursors_fit(),
                    None => !m.cursors_fit(),
                }
            }),
            gone@.len() == 0 ==> r is Some,
    {
        let ghost m = rebuilt(
            self_id@,
            crate::directory::map_of(queues.deep_view()),
            capacity_per_recipient,
            crate::directory::map_of(receipts.deep_view()),
            crate::directory::map_of(gone.deep_view()),
        );
        let queues = Directory::from_entries(queues);
        let receipts = Directory::from_entries(receipts);
        let gone = Directory::from_entries(gone);
        let fine = cursors_are_numbers(&queues, &gone);
        let seen = index_queues(&queues);
        let receipts_seen = index_receipts(&receipts);
        if !fine {
            proof {
                let k = choose|k: Seq<char>| #[trigger]
                    gone@.contains_key(k) && gone@[k] + queue_of(queues@, k).len() > usize::MAX;
                assert(m.base(k) + m.inbox(k).len() > usize::MAX);
            }
            return None;
        }
        let r = MailboxStore {
            self_id,
            queues,
            seen,
            receipts,
            receipts_seen,
            gone,
            capacity_per_recipient: if capacity_per_recipient < 1 {
                1
            } else {
                capacity_per_recipient
            },
        };
        proof {
            assert(r@ =~= m);
            assert forall|k: Seq<char>| #[trigger] m.base(k) + m.inbox(k).len() <= usize::MAX by {
                if r.queues@.contains_key(k) {
                    r.queues.lemma_lists_are_countable(k);
                }
                if r.gone@.contains_key(k) {
                    assert(r.gone@[k] + queue_of(r.queues@, k).len() <= usize::MAX);
                }
            }
        }
        Some(r)
    }

    /// The bytes by which the mailbox is stored.
    pub fn to_bytes(&self) -> (r: Vec<u8>)
        requires
            self.wf(),
        ensures
            stores(r@, self@),
    {
        let mut out: Vec<u8> = Vec::new();
        STORE_MAGIC.put(&mut out);
        self.self_id.put(&mut out);
        self.queues.put_all(&mut out);
        self.capacity_per_recipient.put(&mut out);
        self.receipts.put_all(&mut out);
        self.gone.put_all(&mut out);
        proof {
            assert(self.self_id.deep_view() =~= self.self_id@);
            let parts = stored_parts(
                self@,
                self.queues.listed(),
                self.receipts.listed(),
                self.gone.listed(),
            );
            assert(out@ =~= StoredMailbox::wire(parts));
            assert(StoredMailbox::fits(parts));
        }
        out
    }

    /// The bytes by which the mailbox is stored; there is no mailbox that has none.
    pub fn try_to_bytes(&self) -> (r: Result<Vec<u8>, MailError>)
        requires
            self.wf(),
        ensures
            r is Ok,
            stores(r->Ok_0@, self@),
    {
        Ok(self.to_bytes())
    }

    /// Reads a mailbox from the bytes by which it was stored, in the present form or an older one.
    pub fn from_bytes(bytes: &[u8]) -> (r: Result<MailboxStore, MailError>)
        ensures
            match loaded(bytes@) {
                Some(m) => r is Ok && r->Ok_0.wf() && r->Ok_0@ == m,
                None => r == Err::<MailboxStore, MailError>(
                    MailError::Malformed(Format::MailboxStore),
                ),
            },
    {
        match StoredMailbox::get(bytes) {
            Some(((magic, (self_id, (queues, (capacity, (receipts, gone))))), _)) => {
                if magic == STORE_MAGIC {
                    assert(self_id.deep_view() =~= self_id@);
                    match MailboxStore::rebuild(self_id, queues, capacity, receipts, gone) {
                        Some(store) => {
                            return Ok(store);
                        },
                        None => {},
                    }
                }
            },
            None => {},
        }
        match MailboxStore::from_older_bytes(bytes) {
            Some(store) => Ok(store),
            None => Err(MailError::Malformed(Format::MailboxStore)),
        }
    }

    /// Reads a mailbox from the bytes by which it was stored in an older form.
    fn from_older_bytes(bytes: &[u8]) -> (r: Option<MailboxStore>)
        ensures
            match loaded_older(bytes@) {
                Some(m) => r is Some && r->0.wf() && r->0@ == m,
                None => r is None,
            },
    {
        let none_gone: CountEntries = Vec::new();
        assert(crate::directory::map_of(none_gone.deep_view()) =~= Map::<
            Seq<char>,
            usize,
        >::empty());
        match StoredMailboxV2::get(bytes) {
            Some(((magic, (self_id, (queues, (capacity, receipts)))), _)) => {
                if magic == STORE_MAGIC_V2 {
                    assert(self_id.deep_view() =~= self_id@);
                    return MailboxStore::rebuild(self_id, queues, capacity, receipts, none_gone);
                }
            },
            None => {},
        }
        match StoredMailboxV1::get(bytes) {
            Some(((self_id, (queues, capacity)), _)) => {
                assert(self_id.deep_view() =~= self_id@);
                let none: ReceiptEntries = Vec::new();
                assert(crate::directory::map_of(none.deep_view()) =~= Map::<
                    Seq<char>,
                    Seq<ReceiptModel>,
                >::empty());
                MailboxStore::rebuild(self_id, queues, capacity, none, none_gone)
            },
            None => None,
        }
    }
}

} // verus!
