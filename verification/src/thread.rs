//! Conversations: a flat set of envelopes arranged by what replies to what.
//!
//! An envelope names the message it replies to, if any. Following these links leads to the root of
//! its conversation; envelopes with the same root are one conversation.

use crate::directory::{Directory, NameSet};
use crate::envelope::{Envelope, EnvelopeModel, MessageId};
use crate::text::{is_before, same_text};
use vstd::prelude::*;

pub use crate::subject::normalize_subject;

verus! {

/// From the id of a message to the id of the message it replies to.
pub type ParentMap = Directory<String>;

/// The id of the message.
pub open spec fn mid(e: EnvelopeModel) -> Seq<char> {
    crate::envelope::message_id_of(e.body)
}

/// The links of the envelopes, from each message to the one it replies to.
pub open spec fn parents_of(envelopes: Seq<EnvelopeModel>) -> Map<Seq<char>, Seq<char>>
    decreases envelopes.len(),
{
    if envelopes.len() == 0 {
        Map::empty()
    } else {
        let e = envelopes.last();
        let front = parents_of(envelopes.drop_last());
        if e.body.in_reply_to.len() > 0 {
            front.insert(mid(e), e.body.in_reply_to)
        } else {
            front
        }
    }
}

/// Whether `path` leads from `target` along the links, never twice to the same message.
pub open spec fn climbs(
    path: Seq<Seq<char>>,
    target: Seq<char>,
    parents: Map<Seq<char>, Seq<char>>,
) -> bool {
    &&& path.len() > 0
    &&& path[0] == target
    &&& path.no_duplicates()
    &&& forall|i: int|
        0 <= i < path.len() - 1 ==> parents.contains_key(#[trigger] path[i]) && parents[path[i]]
            == path[i + 1]
}

/// Whether `path` leads from `target` as far as the links go: to a message without one, or to one
/// whose link leads back to the path.
pub open spec fn climbs_to_root(
    path: Seq<Seq<char>>,
    target: Seq<char>,
    parents: Map<Seq<char>, Seq<char>>,
) -> bool {
    climbs(path, target, parents) && (!parents.contains_key(path.last()) || path.contains(
        parents[path.last()],
    ))
}

/// Where the links lead from `target`.
pub open spec fn root_of(target: Seq<char>, parents: Map<Seq<char>, Seq<char>>) -> Seq<char> {
    (choose|path: Seq<Seq<char>>| climbs_to_root(path, target, parents)).last()
}

proof fn lemma_paths_agree(
    a: Seq<Seq<char>>,
    b: Seq<Seq<char>>,
    target: Seq<char>,
    parents: Map<Seq<char>, Seq<char>>,
    i: int,
)
    requires
        climbs(a, target, parents),
        climbs(b, target, parents),
        0 <= i < a.len(),
        i < b.len(),
    ensures
        a[i] == b[i],
    decreases i,
{
    if i > 0 {
        lemma_paths_agree(a, b, target, parents, i - 1);
        assert(parents[a[i - 1]] == a[i]);
        assert(parents[b[i - 1]] == b[i]);
    }
}

proof fn lemma_root_path_is_no_shorter(
    a: Seq<Seq<char>>,
    b: Seq<Seq<char>>,
    target: Seq<char>,
    parents: Map<Seq<char>, Seq<char>>,
)
    requires
        climbs_to_root(a, target, parents),
        climbs(b, target, parents),
    ensures
        b.len() <= a.len(),
{
    if a.len() < b.len() {
        let k = a.len() - 1;
        lemma_paths_agree(a, b, target, parents, k);
        assert(parents.contains_key(b[k]));
        assert(parents[b[k]] == b[k + 1]);
        assert(a.last() == a[k]);
        let j = choose|j: int| 0 <= j < a.len() && a[j] == parents[a.last()];
        lemma_paths_agree(a, b, target, parents, j);
        assert(b[j] == b[k + 1]);
    }
}

/// The links lead from a message to one root only.
pub proof fn lemma_root_is_unique(
    a: Seq<Seq<char>>,
    b: Seq<Seq<char>>,
    target: Seq<char>,
    parents: Map<Seq<char>, Seq<char>>,
)
    requires
        climbs_to_root(a, target, parents),
        climbs_to_root(b, target, parents),
    ensures
        a == b,
{
    lemma_root_path_is_no_shorter(a, b, target, parents);
    lemma_root_path_is_no_shorter(b, a, target, parents);
    assert forall|i: int| 0 <= i < a.len() implies a[i] == b[i] by {
        lemma_paths_agree(a, b, target, parents, i);
    }
    assert(a =~= b);
}

/// A path to the root shows what the root is.
pub proof fn lemma_root_by_path(
    path: Seq<Seq<char>>,
    target: Seq<char>,
    parents: Map<Seq<char>, Seq<char>>,
)
    requires
        climbs_to_root(path, target, parents),
    ensures
        root_of(target, parents) == path.last(),
{
    let other = choose|p: Seq<Seq<char>>| climbs_to_root(p, target, parents);
    lemma_root_is_unique(path, other, target, parents);
}

/// A message that replies to nothing is its own root.
pub proof fn lemma_first_message_is_root(target: Seq<char>, parents: Map<Seq<char>, Seq<char>>)
    requires
        !parents.contains_key(target),
    ensures
        root_of(target, parents) == target,
{
    lemma_root_by_path(seq![target], target, parents);
}

/// A reply to a message that is not known has that message as its root.
pub proof fn lemma_unknown_parent_is_root(target: Seq<char>, parents: Map<Seq<char>, Seq<char>>)
    requires
        parents.contains_key(target),
        !parents.contains_key(parents[target]),
    ensures
        root_of(target, parents) == parents[target],
{
    lemma_root_by_path(seq![target, parents[target]], target, parents);
}

/// A reply has the root of the message that it replies to, where the links from that message do not
/// lead in a circle.
pub proof fn lemma_reply_has_root_of_parent(
    path: Seq<Seq<char>>,
    target: Seq<char>,
    parents: Map<Seq<char>, Seq<char>>,
)
    requires
        parents.contains_key(target),
        climbs_to_root(path, parents[target], parents),
        !parents.contains_key(path.last()),
    ensures
        root_of(target, parents) == root_of(parents[target], parents),
{
    let longer = seq![target] + path;
    assert forall|i: int, j: int|
        0 <= i < longer.len() && 0 <= j < longer.len() && i != j implies longer[i] != longer[j] by {
        if i == 0 || j == 0 {
            let k = if i == 0 {
                j - 1
            } else {
                i - 1
            };
            if path[k] == target {
                lemma_no_way_back(path, parents, k);
            }
        }
    }
    assert forall|i: int| 0 <= i < longer.len() - 1 implies parents.contains_key(
        #[trigger] longer[i],
    ) && parents[longer[i]] == longer[i + 1] by {
        if i > 0 {
            assert(longer[i] == path[i - 1]);
        }
    }
    assert(longer.last() == path.last());
    lemma_root_by_path(longer, target, parents);
    lemma_root_by_path(path, parents[target], parents);
}

/// On a path that ends at a message without a link, the message whose link leads to the start is
/// not met.
proof fn lemma_no_way_back(
    path: Seq<Seq<char>>,
    parents: Map<Seq<char>, Seq<char>>,
    k: int,
)
    requires
        climbs_to_root(path, path[0], parents),
        !parents.contains_key(path.last()),
        0 <= k < path.len(),
        parents.contains_key(path[k]),
    ensures
        parents[path[k]] != path[0],
{
    if k < path.len() - 1 {
        assert(parents[path[k]] == path[k + 1]);
    }
}

/// The links of the envelopes.
pub fn parent_map(envelopes: &[Envelope]) -> (r: ParentMap)
    ensures
        r.wf(),
        r@ == parents_of(envelopes.deep_view()),
{
    let ghost all = envelopes.deep_view();
    let mut out: ParentMap = Directory::new();
    let mut i: usize = 0;
    assert(all.take(0) =~= Seq::<EnvelopeModel>::empty());
    while i < envelopes.len()
        invariant
            i <= envelopes@.len(),
            all == envelopes.deep_view(),
            out.wf(),
            out@ == parents_of(all.take(i as int)),
        decreases envelopes@.len() - i,
    {
        let e = &envelopes[i];
        if !e.body.in_reply_to.as_str().is_empty() {
            out.insert(e.message_id(), e.body.in_reply_to.clone());
        }
        assert(all.take(i + 1).drop_last() =~= all.take(i as int));
        assert(all.take(i + 1).last() == e@);
        i += 1;
    }
    assert(all.take(envelopes@.len() as int) =~= all);
    out
}

/// The root of the conversation of `target`: the links are followed to a message without one, or
/// until they lead back to a message that was met before.
pub fn resolve_root(target: &MessageId, parents: &ParentMap) -> (r: MessageId)
    requires
        parents.wf(),
    ensures
        r@ == root_of(target@, parents@),
        exists|path: Seq<Seq<char>>| #[trigger]
            climbs_to_root(path, target@, parents@) && path.last() == r@,
{
    let mut current: MessageId = target.clone();
    let mut seen = NameSet::new();
    seen.insert(current.clone());
    let ghost mut path: Seq<Seq<char>> = seq![target@];
    let ghost n = parents.listed().len();
    loop
        invariant
            parents.wf(),
            n == parents.listed().len(),
            climbs(path, target@, parents@),
            path.last() == current@,
            forall|x: Seq<char>| seen@.contains(x) <==> path.contains(x),
            path.len() <= n + 1,
        decreases n + 1 - path.len(),
    {
        match parents.get(current.as_str()) {
            Some(parent) => {
                if seen.contains(parent.as_str()) {
                    proof {
                        assert(climbs_to_root(path, target@, parents@));
                        lemma_root_by_path(path, target@, parents@);
                    }
                    return current;
                }
                assert(!path.contains(parent@));
                seen.insert(parent.clone());
                proof {
                    parents.lemma_names_are_few(path);
                    let longer = path.push(parent@);
                    assert forall|i: int, j: int|
                        0 <= i < longer.len() && 0 <= j < longer.len() && i != j implies longer[i]
                        != longer[j] by {
                        if i < path.len() && j < path.len() {
                            assert(path[i] != path[j]);
                        } else if i < path.len() {
                            assert(path.contains(path[i]));
                        } else {
                            assert(path.contains(path[j]));
                        }
                    }
                    assert forall|i: int| 0 <= i < longer.len() - 1 implies parents@.contains_key(
                        #[trigger] longer[i],
                    ) && parents@[longer[i]] == longer[i + 1] by {
                        assert(longer[i] == path[i]);
                        if i < path.len() - 1 {
                            assert(longer[i + 1] == path[i + 1]);
                        }
                    }
                    assert forall|x: Seq<char>| seen@.contains(x) <==> longer.contains(x) by {
                        if x == parent@ {
                            assert(longer[longer.len() - 1] == x);
                        } else if path.contains(x) {
                            let k = choose|k: int| 0 <= k < path.len() && path[k] == x;
                            assert(longer[k] == x);
                        } else if longer.contains(x) {
                            let k = choose|k: int| 0 <= k < longer.len() && longer[k] == x;
                            assert(path[k] == x);
                        }
                    }
                    path = longer;
                }
                let known: bool = match parents.get(parent.as_str()) {
                    Some(_) => true,
                    None => false,
                };
                if known {
                    current = parent.clone();
                } else {
                    proof {
                        assert(climbs_to_root(path, target@, parents@));
                        lemma_root_by_path(path, target@, parents@);
                    }
                    return parent.clone();
                }
            },
            None => {
                proof {
                    assert(climbs_to_root(path, target@, parents@));
                    lemma_root_by_path(path, target@, parents@);
                }
                return current;
            },
        }
    }
}

/// The root of the conversation of an envelope among others.
pub fn thread_root(envelope: &Envelope, envelopes: &[Envelope]) -> (r: MessageId)
    ensures
        r@ == root_of(mid(envelope@), parents_of(envelopes.deep_view())),
{
    let parents = parent_map(envelopes);
    resolve_root(&envelope.message_id(), &parents)
}

/// A conversation: the envelopes with one root.
#[derive(Debug, Clone)]
pub struct Conversation {
    /// The id of the root.
    pub root: MessageId,
    /// The envelopes, oldest first.
    pub messages: Vec<Envelope>,
}

/// A conversation as mathematical values.
#[verifier::ext_equal]
pub struct ConversationModel {
    pub root: Seq<char>,
    pub messages: Seq<EnvelopeModel>,
}

impl View for Conversation {
    type V = ConversationModel;

    open spec fn view(&self) -> ConversationModel {
        ConversationModel { root: self.root@, messages: self.messages.deep_view() }
    }
}

impl DeepView for Conversation {
    type V = ConversationModel;

    open spec fn deep_view(&self) -> ConversationModel {
        self.view()
    }
}

/// The latest time at which one of the messages was sent; 0 if there are none.
pub open spec fn latest(messages: Seq<EnvelopeModel>) -> u64
    decreases messages.len(),
{
    if messages.len() == 0 {
        0
    } else {
        let front = latest(messages.drop_last());
        let last = messages.last().body.sent_at;
        if last > front {
            last
        } else {
            front
        }
    }
}

impl Conversation {
    /// The number of messages.
    pub fn len(&self) -> (r: usize)
        ensures
            r == self@.messages.len(),
    {
        self.messages.len()
    }

    /// Whether there are no messages.
    pub fn is_empty(&self) -> (r: bool)
        ensures
            r == (self@.messages.len() == 0),
    {
        self.messages.len() == 0
    }

    /// When the latest of the messages was sent; 0 if there are none.
    pub fn last_activity(&self) -> (r: u64)
        ensures
            r == latest(self@.messages),
    {
        let ghost all = self@.messages;
        let mut out: u64 = 0;
        let mut i: usize = 0;
        while i < self.messages.len()
            invariant
                i <= self.messages@.len(),
                all == self@.messages,
                out == latest(all.take(i as int)),
            decreases self.messages@.len() - i,
        {
            assert(all.take(i + 1).drop_last() =~= all.take(i as int));
            assert(all.take(i + 1).last() == self.messages@[i as int]@);
            let sent_at: u64 = self.messages[i].body.sent_at;
            if sent_at > out {
                out = sent_at;
            }
            i += 1;
        }
        assert(all.take(self.messages@.len() as int) =~= all);
        out
    }

    /// The normalized subject of the root message, or of the oldest message if the root is not
    /// among them; empty if there are none.
    pub fn subject(&self) -> (r: String)
        ensures
            self@.messages.len() == 0 ==> r@.len() == 0,
            self@.messages.len() > 0 ==> r@ == crate::subject::normalized(
                self@.messages[title_at(self@)].body.subject,
            ),
    {
        let ghost all = self@.messages;
        let mut i: usize = 0;
        while i < self.messages.len()
            invariant
                i <= self.messages@.len(),
                all == self@.messages,
                forall|k: int| 0 <= k < i ==> mid(#[trigger] all[k]) != self@.root,
            decreases self.messages@.len() - i,
        {
            let id = self.messages[i].message_id();
            assert(all[i as int] == self.messages@[i as int]@);
            if same_text(id.as_str(), self.root.as_str()) {
                assert(is_title(self@, i as int));
                assert(forall|k: int| is_title(self@, k) ==> k == i);
                return normalize_subject(self.messages[i].body.subject.as_str());
            }
            i += 1;
        }
        assert(forall|k: int| !is_title(self@, k));
        if self.messages.len() == 0 {
            String::new()
        } else {
            assert(all[0] == self.messages@[0]@);
            normalize_subject(self.messages[0].body.subject.as_str())
        }
    }
}

/// Whether the message at `i` is the first with the id of the root.
pub open spec fn is_title(c: ConversationModel, i: int) -> bool {
    &&& 0 <= i < c.messages.len()
    &&& mid(c.messages[i]) == c.root
    &&& forall|k: int| 0 <= k < i ==> mid(#[trigger] c.messages[k]) != c.root
}

/// Where the message stands that a conversation is called by: the root, or the oldest message if
/// the root is not among them.
pub open spec fn title_at(c: ConversationModel) -> int {
    if exists|i: int| is_title(c, i) {
        choose|i: int| is_title(c, i)
    } else {
        0
    }
}

/// Whether the message `a` comes before the message `b` in a conversation: by the time at which it
/// was sent, and by its id where the times are the same.
pub open spec fn sent_before(a: EnvelopeModel, b: EnvelopeModel) -> bool {
    a.body.sent_at < b.body.sent_at || (a.body.sent_at == b.body.sent_at
        && crate::text::text_before(mid(a), mid(b)))
}

/// Whether the conversation `a` comes before the conversation `b`: by its latest message, newest
/// first, and by its root where these were sent at the same time.
pub open spec fn more_recent(a: ConversationModel, b: ConversationModel) -> bool {
    latest(a.messages) > latest(b.messages) || (latest(a.messages) == latest(b.messages)
        && crate::text::text_before(a.root, b.root))
}

/// Whether the messages are in the order of a conversation, none twice.
pub open spec fn in_sent_order(messages: Seq<EnvelopeModel>) -> bool {
    forall|i: int, j: int|
        0 <= i < j < messages.len() ==> sent_before(#[trigger] messages[i], #[trigger] messages[j])
}

/// Whether the conversations are in order, none twice.
pub open spec fn in_recent_order(convs: Seq<ConversationModel>) -> bool {
    forall|i: int, j: int|
        0 <= i < j < convs.len() ==> more_recent(#[trigger] convs[i], #[trigger] convs[j])
}

/// Whether one of the envelopes has the id `id`.
pub open spec fn has_id(envelopes: Seq<EnvelopeModel>, id: Seq<char>) -> bool {
    exists|i: int| 0 <= i < envelopes.len() && mid(#[trigger] envelopes[i]) == id
}

/// The first envelope of each id, in their order.
pub open spec fn firsts(envelopes: Seq<EnvelopeModel>) -> Seq<EnvelopeModel>
    decreases envelopes.len(),
{
    if envelopes.len() == 0 {
        envelopes
    } else {
        let front = firsts(envelopes.drop_last());
        if has_id(front, mid(envelopes.last())) {
            front
        } else {
            front.push(envelopes.last())
        }
    }
}

/// The root of the conversation of `e` among the envelopes `all`.
pub open spec fn root_among(e: EnvelopeModel, all: Seq<EnvelopeModel>) -> Seq<char> {
    root_of(mid(e), parents_of(all))
}

/// Whether `convs` is the arrangement of the envelopes `all`, which have different ids, into
/// conversations: every envelope stands in the conversation of its root, which holds nothing else
/// and is in order; no conversation is empty; no two have the same root; and they are in order.
pub open spec fn arranges(convs: Seq<ConversationModel>, all: Seq<EnvelopeModel>) -> bool {
    &&& in_recent_order(convs)
    &&& forall|c: int| 0 <= c < convs.len() ==> is_conversation(#[trigger] convs[c], all)
    &&& forall|c: int, d: int|
        0 <= c < d < convs.len() ==> (#[trigger] convs[c]).root != (#[trigger] convs[d]).root
    &&& forall|k: int| 0 <= k < all.len() ==> has_message(convs, #[trigger] all[k], all)
}

/// Whether the messages are in order and are envelopes of `all` with the given root.
pub open spec fn is_conversation(c: ConversationModel, all: Seq<EnvelopeModel>) -> bool {
    &&& c.messages.len() > 0
    &&& in_sent_order(c.messages)
    &&& forall|i: int|
        0 <= i < c.messages.len() ==> all.contains(#[trigger] c.messages[i]) && root_among(
            c.messages[i],
            all,
        ) == c.root
}

/// Whether `e` stands in the conversation of its root.
pub open spec fn has_message(
    convs: Seq<ConversationModel>,
    e: EnvelopeModel,
    all: Seq<EnvelopeModel>,
) -> bool {
    exists|c: int|
        0 <= c < convs.len() && (#[trigger] convs[c]).root == root_among(e, all)
            && convs[c].messages.contains(e)
}

/// The first envelopes of each id have different ids, and every id has one.
pub proof fn lemma_firsts(envelopes: Seq<EnvelopeModel>)
    ensures
        forall|i: int, j: int|
            0 <= i < j < firsts(envelopes).len() ==> mid(#[trigger] firsts(envelopes)[i]) != mid(
                #[trigger] firsts(envelopes)[j],
            ),
        forall|id: Seq<char>| has_id(firsts(envelopes), id) <==> has_id(envelopes, id),
        forall|i: int|
            0 <= i < firsts(envelopes).len() ==> envelopes.contains(
                #[trigger] firsts(envelopes)[i],
            ),
    decreases envelopes.len(),
{
    if envelopes.len() > 0 {
        let t = envelopes.drop_last();
        let e = envelopes.last();
        lemma_firsts(t);
        let f = firsts(t);
        let g = firsts(envelopes);
        assert forall|i: int| 0 <= i < g.len() implies envelopes.contains(#[trigger] g[i]) by {
            if i < f.len() {
                assert(t.contains(f[i]));
                let k = choose|k: int| 0 <= k < t.len() && t[k] == f[i];
                assert(envelopes[k] == g[i]);
            } else {
                assert(envelopes[envelopes.len() - 1] == g[i]);
            }
        }
        assert forall|id: Seq<char>| has_id(g, id) <==> has_id(envelopes, id) by {
            if has_id(g, id) {
                let i = choose|i: int| 0 <= i < g.len() && mid(#[trigger] g[i]) == id;
                assert(envelopes.contains(g[i]));
                let k = choose|k: int| 0 <= k < envelopes.len() && envelopes[k] == g[i];
                assert(mid(envelopes[k]) == id);
            }
            if has_id(envelopes, id) {
                let k = choose|k: int|
                    0 <= k < envelopes.len() && mid(#[trigger] envelopes[k]) == id;
                if k < t.len() {
                    assert(mid(t[k]) == id);
                    assert(has_id(t, id));
                    assert(has_id(f, id));
                } else {
                    assert(id == mid(e));
                    if !has_id(f, id) {
                        assert(mid(g[f.len() as int]) == id);
                    }
                }
                if has_id(f, id) {
                    let i = choose|i: int| 0 <= i < f.len() && mid(#[trigger] f[i]) == id;
                    assert(mid(g[i]) == id);
                }
            }
        }
        assert forall|i: int, j: int| 0 <= i < j < g.len() implies mid(#[trigger] g[i]) != mid(
            #[trigger] g[j],
        ) by {
            if j < f.len() {
                assert(mid(f[i]) != mid(f[j]));
            } else {
                assert(mid(f[i]) == mid(g[i]));
            }
        }
    }
}

/// The first envelope of each id.
fn dedupe(envelopes: &[Envelope]) -> (r: Vec<Envelope>)
    ensures
        r.deep_view() == firsts(envelopes.deep_view()),
{
    let ghost all = envelopes.deep_view();
    let mut out: Vec<Envelope> = Vec::new();
    let mut seen = NameSet::new();
    let mut i: usize = 0;
    assert(out.deep_view() =~= firsts(all.take(0)));
    while i < envelopes.len()
        invariant
            i <= envelopes@.len(),
            all == envelopes.deep_view(),
            out.deep_view() == firsts(all.take(i as int)),
            forall|x: Seq<char>| seen@.contains(x) <==> has_id(firsts(all.take(i as int)), x),
        decreases envelopes@.len() - i,
    {
        let e = &envelopes[i];
        let id = e.message_id();
        let ghost before = firsts(all.take(i as int));
        let ghost after = firsts(all.take(i + 1));
        assert(all.take(i + 1).drop_last() =~= all.take(i as int));
        assert(all.take(i + 1).last() == e@);
        if !seen.contains(id.as_str()) {
            out.push(e.clone());
            seen.insert(id);
            assert(out.deep_view() =~= before.push(e@));
            assert forall|x: Seq<char>| seen@.contains(x) <==> has_id(after, x) by {
                if x == mid(e@) {
                    assert(mid(after[before.len() as int]) == x);
                } else if has_id(before, x) {
                    let k = choose|k: int| 0 <= k < before.len() && mid(#[trigger] before[k]) == x;
                    assert(mid(after[k]) == x);
                } else if has_id(after, x) {
                    let k = choose|k: int| 0 <= k < after.len() && mid(#[trigger] after[k]) == x;
                    assert(mid(before[k]) == x);
                }
            }
        }
        i += 1;
    }
    assert(all.take(envelopes@.len() as int) =~= all);
    out
}

/// Whether the message `a` comes before the message `b` in a conversation.
fn is_sent_before(a: &Envelope, b: &Envelope) -> (r: bool)
    ensures
        r == sent_before(a@, b@),
{
    if a.body.sent_at != b.body.sent_at {
        a.body.sent_at < b.body.sent_at
    } else {
        is_before(a.message_id().as_str(), b.message_id().as_str())
    }
}

/// Puts a message with a new id in its place.
fn insert_message(messages: &mut Vec<Envelope>, e: Envelope)
    requires
        in_sent_order(old(messages).deep_view()),
        !has_id(old(messages).deep_view(), mid(e@)),
    ensures
        in_sent_order(final(messages).deep_view()),
        exists|at: int|
            0 <= at <= old(messages)@.len() && final(messages).deep_view() == #[trigger] old(
                messages,
            ).deep_view().insert(at, e@),
{
    let ghost m = messages.deep_view();
    let mut at: usize = messages.len();
    while at > 0 && is_sent_before(&e, &messages[at - 1])
        invariant
            at <= messages@.len(),
            m == messages.deep_view(),
            forall|j: int| at <= j < m.len() ==> sent_before(e@, #[trigger] m[j]),
        decreases at,
    {
        at -= 1;
    }
    proof {
        assert forall|i: int| 0 <= i < at implies sent_before(#[trigger] m[i], e@) by {
            let last = m[at - 1];
            crate::text::lemma_text_before_total(mid(last), mid(e@));
            assert(mid(m[at - 1]) != mid(e@));
            assert(sent_before(last, e@));
            if i < at - 1 {
                assert(sent_before(m[i], m[at - 1]));
                if m[i].body.sent_at == e@.body.sent_at {
                    crate::text::lemma_text_before_transitive(mid(m[i]), mid(last), mid(e@));
                }
            }
        }
    }
    messages.insert(at, e);
    proof {
        let n = m.insert(at as int, e@);
        assert(messages.deep_view() =~= n);
        assert forall|i: int, j: int| 0 <= i < j < n.len() implies sent_before(
            #[trigger] n[i],
            #[trigger] n[j],
        ) by {
            if i < at && j < at {
                assert(sent_before(m[i], m[j]));
            } else if i < at && j > at {
                assert(sent_before(m[i], m[j - 1]));
            } else if i > at {
                assert(sent_before(m[i - 1], m[j - 1]));
            }
        }
    }
}

/// Whether the conversation `a` comes before the conversation `b`.
fn is_more_recent(a: &Conversation, b: &Conversation) -> (r: bool)
    ensures
        r == more_recent(a@, b@),
{
    let x: u64 = a.last_activity();
    let y: u64 = b.last_activity();
    if x != y {
        x > y
    } else {
        is_before(a.root.as_str(), b.root.as_str())
    }
}

/// Puts a conversation with a new root in its place.
fn insert_conversation(convs: &mut Vec<Conversation>, c: Conversation)
    requires
        in_recent_order(old(convs).deep_view()),
        forall|i: int|
            0 <= i < old(convs)@.len() ==> (#[trigger] old(convs).deep_view()[i]).root != c@.root,
    ensures
        in_recent_order(final(convs).deep_view()),
        exists|at: int|
            0 <= at <= old(convs)@.len() && final(convs).deep_view() == #[trigger] old(
                convs,
            ).deep_view().insert(at, c@),
{
    let ghost m = convs.deep_view();
    let mut at: usize = convs.len();
    while at > 0 && is_more_recent(&c, &convs[at - 1])
        invariant
            at <= convs@.len(),
            m == convs.deep_view(),
            forall|j: int| at <= j < m.len() ==> more_recent(c@, #[trigger] m[j]),
        decreases at,
    {
        at -= 1;
    }
    proof {
        assert forall|i: int| 0 <= i < at implies more_recent(#[trigger] m[i], c@) by {
            let last = m[at - 1];
            crate::text::lemma_text_before_total(last.root, c@.root);
            assert(more_recent(last, c@));
            if i < at - 1 {
                assert(more_recent(m[i], m[at - 1]));
                if latest(m[i].messages) == latest(c@.messages) {
                    crate::text::lemma_text_before_transitive(m[i].root, last.root, c@.root);
                }
            }
        }
    }
    convs.insert(at, c);
    proof {
        let n = m.insert(at as int, c@);
        assert(convs.deep_view() =~= n);
        assert forall|i: int, j: int| 0 <= i < j < n.len() implies more_recent(
            #[trigger] n[i],
            #[trigger] n[j],
        ) by {
            if i < at && j < at {
                assert(more_recent(m[i], m[j]));
            } else if i < at && j > at {
                assert(more_recent(m[i], m[j - 1]));
            } else if i > at {
                assert(more_recent(m[i - 1], m[j - 1]));
            }
        }
    }
}

/// Whether `groups` holds the first `i` envelopes of `all`, each under its root and in order.
spec fn groups_first(
    groups: Map<Seq<char>, Seq<EnvelopeModel>>,
    all: Seq<EnvelopeModel>,
    i: int,
) -> bool {
    &&& forall|r: Seq<char>| #[trigger]
        groups.contains_key(r) ==> is_conversation(
            (ConversationModel { root: r, messages: groups[r] }),
            all,
        )
    &&& forall|r: Seq<char>, j: int|
        groups.contains_key(r) && 0 <= j < groups[r].len() ==> all.take(i).contains(
            #[trigger] groups[r][j],
        )
    &&& forall|k: int|
        0 <= k < i ==> groups.contains_key(root_among(#[trigger] all[k], all))
            && groups[root_among(all[k], all)].contains(all[k])
}

/// The envelopes by the root of their conversation.
fn group_by_root(all: &Vec<Envelope>) -> (r: Directory<Vec<Envelope>>)
    requires
        forall|i: int, j: int|
            0 <= i < j < all@.len() ==> mid(#[trigger] all.deep_view()[i]) != mid(
                #[trigger] all.deep_view()[j],
            ),
    ensures
        r.wf(),
        groups_first(r@, all.deep_view(), all@.len() as int),
{
    let ghost m = all.deep_view();
    let envelopes = all.as_slice();
    assert(envelopes.deep_view() =~= m);
    let parents = parent_map(envelopes);
    let mut groups: Directory<Vec<Envelope>> = Directory::new();
    let mut i: usize = 0;
    while i < all.len()
        invariant
            i <= all@.len(),
            m == all.deep_view(),
            parents.wf(),
            parents@ == parents_of(m),
            groups.wf(),
            groups_first(groups@, m, i as int),
            forall|a: int, b: int|
                0 <= a < b < m.len() ==> mid(#[trigger] m[a]) != mid(#[trigger] m[b]),
        decreases all@.len() - i,
    {
        let ghost before = groups@;
        let ghost e = m[i as int];
        let root = resolve_root(&all[i].message_id(), &parents);
        let mut group: Vec<Envelope> = match groups.remove(root.as_str()) {
            Some(g) => g,
            None => Vec::new(),
        };
        let ghost old_group = group.deep_view();
        let ghost key = root@;
        proof {
            assert(old_group =~= if before.contains_key(key) {
                before[key]
            } else {
                Seq::empty()
            });
            if has_id(old_group, mid(e)) {
                let j = choose|j: int|
                    0 <= j < old_group.len() && mid(#[trigger] old_group[j]) == mid(e);
                assert(before[key][j] == old_group[j]);
                assert(m.take(i as int).contains(before[key][j]));
                let k = choose|k: int| 0 <= k < i && m.take(i as int)[k] == old_group[j];
                assert(mid(m[k]) == mid(m[i as int]));
            }
            assert(in_sent_order(old_group)) by {
                if before.contains_key(key) {
                    assert(is_conversation(
                        (ConversationModel { root: key, messages: before[key] }),
                        m,
                    ));
                }
            }
        }
        insert_message(&mut group, all[i].clone());
        let ghost new_group = group.deep_view();
        groups.insert(root, group);
        proof {
            let at = choose|at: int|
                0 <= at <= old_group.len() && new_group == #[trigger] old_group.insert(at, e);
            lemma_group_grows(before, groups@, m, i as int, key, old_group, new_group, at);
        }
        i += 1;
    }
    groups
}

proof fn lemma_group_grows(
    before: Map<Seq<char>, Seq<EnvelopeModel>>,
    after: Map<Seq<char>, Seq<EnvelopeModel>>,
    m: Seq<EnvelopeModel>,
    i: int,
    key: Seq<char>,
    old_group: Seq<EnvelopeModel>,
    new_group: Seq<EnvelopeModel>,
    at: int,
)
    requires
        0 <= i < m.len(),
        groups_first(before, m, i),
        key == root_among(m[i], m),
        old_group == (if before.contains_key(key) {
            before[key]
        } else {
            Seq::empty()
        }),
        0 <= at <= old_group.len(),
        new_group == old_group.insert(at, m[i]),
        in_sent_order(new_group),
        after == before.remove(key).insert(key, new_group),
    ensures
        groups_first(after, m, i + 1),
{
    assert(new_group[at] == m[i]);
    assert forall|r: Seq<char>| #[trigger] after.contains_key(r) implies is_conversation(
        (ConversationModel { root: r, messages: after[r] }),
        m,
    ) by {
        if r == key {
            assert forall|j: int| 0 <= j < new_group.len() implies m.contains(
                #[trigger] new_group[j],
            ) && root_among(new_group[j], m) == key by {
                if j == at {
                    assert(m[i] == new_group[j]);
                } else {
                    let o = if j < at {
                        j
                    } else {
                        j - 1
                    };
                    assert(new_group[j] == old_group[o]);
                    assert(is_conversation(
                        (ConversationModel { root: key, messages: before[key] }),
                        m,
                    ));
                }
            }
        } else {
            assert(before.contains_key(r));
        }
    }
    assert forall|r: Seq<char>, j: int|
        after.contains_key(r) && 0 <= j < after[r].len() implies m.take(i + 1).contains(
        #[trigger] after[r][j],
    ) by {
        if r == key && j == at {
            assert(m.take(i + 1)[i] == after[r][j]);
        } else {
            let o = if r == key && j > at {
                j - 1
            } else {
                j
            };
            assert(before.contains_key(r));
            assert(after[r][j] == before[r][o]);
            assert(m.take(i).contains(before[r][o]));
            let k = choose|k: int| 0 <= k < i && m.take(i)[k] == before[r][o];
            assert(m.take(i + 1)[k] == after[r][j]);
        }
    }
    assert forall|k: int| 0 <= k < i + 1 implies after.contains_key(
        root_among(#[trigger] m[k], m),
    ) && after[root_among(m[k], m)].contains(m[k]) by {
        let r = root_among(m[k], m);
        if k == i {
            assert(new_group[at] == m[k]);
        } else {
            assert(before[r].contains(m[k]));
            let j = choose|j: int| 0 <= j < before[r].len() && before[r][j] == m[k];
            if r == key {
                if j < at {
                    assert(new_group[j] == m[k]);
                } else {
                    assert(new_group[j + 1] == m[k]);
                }
            } else {
                assert(after[r][j] == m[k]);
            }
        }
    }
}

/// The entry of a group as a conversation.
spec fn as_conversation(entry: (Seq<char>, Seq<EnvelopeModel>)) -> ConversationModel {
    ConversationModel { root: entry.0, messages: entry.1 }
}

/// Arranges envelopes into conversations. Of envelopes with the same id the first counts. The
/// conversations come newest activity first, and the messages of each oldest first.
pub fn group_threads(envelopes: &[Envelope]) -> (r: Vec<Conversation>)
    ensures
        arranges(r.deep_view(), firsts(envelopes.deep_view())),
{
    let all = dedupe(envelopes);
    let ghost m = all.deep_view();
    proof {
        lemma_firsts(envelopes.deep_view());
    }
    let groups = group_by_root(&all);
    let ghost g = groups@;
    let mut left = groups.into_entries();
    let ghost listed = left.deep_view();
    let mut convs: Vec<Conversation> = Vec::new();
    assert(listed.take(listed.len() as int) =~= listed);
    while left.len() > 0
        invariant
            crate::directory::lists(listed, g),
            left@.len() <= listed.len(),
            left.deep_view() == listed.take(left@.len() as int),
            in_recent_order(convs.deep_view()),
            forall|c: int|
                0 <= c < convs@.len() ==> is_listed_after(
                    listed,
                    left@.len() as int,
                    #[trigger] convs.deep_view()[c],
                ),
            forall|j: int|
                left@.len() <= j < listed.len() ==> convs.deep_view().contains(
                    as_conversation(#[trigger] listed[j]),
                ),
            forall|c: int, d: int|
                0 <= c < d < convs@.len() ==> (#[trigger] convs.deep_view()[c]).root != (
                #[trigger] convs.deep_view()[d]).root,
        decreases left@.len(),
    {
        let ghost n = left@.len() as int;
        let ghost before = convs.deep_view();
        match left.pop() {
            Some((root, messages)) => {
                let conv = Conversation { root, messages };
                let ghost new = conv@;
                proof {
                    assert(left.deep_view() =~= listed.take(n - 1));
                    assert(listed.take(n)[n - 1] == listed[n - 1]);
                    assert(new == as_conversation(listed[n - 1]));
                    assert forall|c: int| 0 <= c < before.len() implies (
                    #[trigger] before[c]).root != new.root by {
                        let j = choose|j: int|
                            n <= j < listed.len() && before[c] == as_conversation(
                                #[trigger] listed[j],
                            );
                        assert(listed[n - 1].0 != listed[j].0);
                    }
                }
                insert_conversation(&mut convs, conv);
                proof {
                    let after = convs.deep_view();
                    let at = choose|at: int|
                        0 <= at <= before.len() && after == #[trigger] before.insert(at, new);
                    lemma_conversations_grow(before, after, listed, n, new, at);
                }
            },
            None => {},
        }
    }
    proof {
        let cs = convs.deep_view();
        assert forall|c: int| 0 <= c < cs.len() implies is_conversation(#[trigger] cs[c], m) by {
            let j = choose|j: int|
                0 <= j < listed.len() && cs[c] == as_conversation(#[trigger] listed[j]);
            assert(g.contains_key(listed[j].0));
        }
        assert forall|k: int| 0 <= k < m.len() implies has_message(cs, #[trigger] m[k], m) by {
            let r = root_among(m[k], m);
            assert(g.contains_key(r) && g[r].contains(m[k]));
            let j = choose|j: int| 0 <= j < listed.len() && (#[trigger] listed[j]).0 == r;
            assert(cs.contains(as_conversation(listed[j])));
            let c = choose|c: int| 0 <= c < cs.len() && cs[c] == as_conversation(listed[j]);
            assert(cs[c].root == r);
        }
    }
    convs
}

/// Whether `c` is an entry of `listed` at or after position `n`.
spec fn is_listed_after(
    listed: Seq<(Seq<char>, Seq<EnvelopeModel>)>,
    n: int,
    c: ConversationModel,
) -> bool {
    exists|j: int| n <= j < listed.len() && c == as_conversation(#[trigger] listed[j])
}

proof fn lemma_conversations_grow(
    before: Seq<ConversationModel>,
    after: Seq<ConversationModel>,
    listed: Seq<(Seq<char>, Seq<EnvelopeModel>)>,
    n: int,
    new: ConversationModel,
    at: int,
)
    requires
        0 < n <= listed.len(),
        0 <= at <= before.len(),
        after == before.insert(at, new),
        new == as_conversation(listed[n - 1]),
        forall|c: int|
            0 <= c < before.len() ==> is_listed_after(listed, n, #[trigger] before[c]) && before[c].root
                != new.root,
        forall|j: int|
            n <= j < listed.len() ==> before.contains(as_conversation(#[trigger] listed[j])),
        forall|c: int, d: int|
            0 <= c < d < before.len() ==> (#[trigger] before[c]).root != (#[trigger] before[d]).root,
    ensures
        forall|c: int|
            0 <= c < after.len() ==> is_listed_after(listed, n - 1, #[trigger] after[c]),
        forall|j: int|
            n - 1 <= j < listed.len() ==> after.contains(as_conversation(#[trigger] listed[j])),
        forall|c: int, d: int|
            0 <= c < d < after.len() ==> (#[trigger] after[c]).root != (#[trigger] after[d]).root,
{
    assert(after[at] == new);
    assert forall|c: int| 0 <= c < after.len() implies is_listed_after(
        listed,
        n - 1,
        #[trigger] after[c],
    ) by {
        if c == at {
            assert(after[c] == as_conversation(listed[n - 1]));
        } else {
            let o = if c < at {
                c
            } else {
                c - 1
            };
            assert(after[c] == before[o]);
            assert(is_listed_after(listed, n, before[o]));
            let j = choose|j: int|
                n <= j < listed.len() && before[o] == as_conversation(#[trigger] listed[j]);
            assert(after[c] == as_conversation(listed[j]));
        }
    }
    assert forall|j: int| n - 1 <= j < listed.len() implies after.contains(
        as_conversation(#[trigger] listed[j]),
    ) by {
        if j == n - 1 {
            assert(after[at] == as_conversation(listed[j]));
        } else {
            assert(before.contains(as_conversation(listed[j])));
            let o = choose|o: int| 0 <= o < before.len() && before[o] == as_conversation(listed[j]);
            if o < at {
                assert(after[o] == before[o]);
            } else {
                assert(after[o + 1] == before[o]);
            }
        }
    }
    assert forall|c: int, d: int| 0 <= c < d < after.len() implies (#[trigger] after[c]).root != (
    #[trigger] after[d]).root by {
        let o = if c < at {
            c
        } else {
            c - 1
        };
        let p = if d < at {
            d
        } else {
            d - 1
        };
        if c == at {
            assert(after[d] == before[p]);
        } else if d == at {
            assert(after[c] == before[o]);
        } else {
            assert(after[c] == before[o]);
            assert(after[d] == before[p]);
        }
    }
}

/// Two sequences that are in the same strict order and hold the same items are the same.
proof fn lemma_same_order<T>(a: Seq<T>, b: Seq<T>, lt: spec_fn(T, T) -> bool)
    requires
        forall|i: int, j: int| 0 <= i < j < a.len() ==> lt(#[trigger] a[i], #[trigger] a[j]),
        forall|i: int, j: int| 0 <= i < j < b.len() ==> lt(#[trigger] b[i], #[trigger] b[j]),
        forall|x: T| a.contains(x) <==> b.contains(x),
        forall|x: T, y: T| #[trigger] lt(x, y) ==> !lt(y, x),
    ensures
        a == b,
    decreases a.len(),
{
    if a.len() == 0 {
        if b.len() > 0 {
            assert(b.contains(b[0]));
        }
        assert(a =~= b);
    } else {
        assert(a.contains(a[0]));
        let j = choose|j: int| 0 <= j < b.len() && b[j] == a[0];
        assert(b.contains(b[0]));
        let i = choose|i: int| 0 <= i < a.len() && a[i] == b[0];
        assert(a[0] == b[0]) by {
            if i > 0 && j > 0 {
                assert(lt(a[0], a[i]));
                assert(lt(b[0], b[j]));
            }
        }
        let s = a.skip(1);
        let t = b.skip(1);
        assert forall|x: T| s.contains(x) <==> t.contains(x) by {
            if s.contains(x) {
                let k = choose|k: int| 0 <= k < s.len() && s[k] == x;
                assert(a[k + 1] == x);
                assert(lt(a[0], a[k + 1]));
                assert(a.contains(x));
                let l = choose|l: int| 0 <= l < b.len() && b[l] == x;
                assert(t[l - 1] == x);
            }
            if t.contains(x) {
                let k = choose|k: int| 0 <= k < t.len() && t[k] == x;
                assert(b[k + 1] == x);
                assert(lt(b[0], b[k + 1]));
                assert(b.contains(x));
                let l = choose|l: int| 0 <= l < a.len() && a[l] == x;
                assert(s[l - 1] == x);
            }
        }
        assert forall|p: int, q: int| 0 <= p < q < s.len() implies lt(
            #[trigger] s[p],
            #[trigger] s[q],
        ) by {
            assert(lt(a[p + 1], a[q + 1]));
        }
        assert forall|p: int, q: int| 0 <= p < q < t.len() implies lt(
            #[trigger] t[p],
            #[trigger] t[q],
        ) by {
            assert(lt(b[p + 1], b[q + 1]));
        }
        lemma_same_order(s, t, lt);
        assert(a =~= seq![a[0]] + s);
        assert(b =~= seq![b[0]] + t);
    }
}

proof fn lemma_text_before_one_way(a: Seq<char>, b: Seq<char>)
    requires
        crate::text::text_before(a, b),
    ensures
        !crate::text::text_before(b, a),
{
    if crate::text::text_before(b, a) {
        crate::text::lemma_text_before_transitive(a, b, a);
        crate::text::lemma_text_before_irreflexive(a);
    }
}

/// In two arrangements of the same envelopes, the conversations with one root hold the same
/// messages in the same order.
proof fn lemma_same_conversation(
    a: Seq<ConversationModel>,
    b: Seq<ConversationModel>,
    all: Seq<EnvelopeModel>,
    c: int,
)
    requires
        arranges(a, all),
        arranges(b, all),
        0 <= c < a.len(),
    ensures
        b.contains(a[c]),
{
    let first = a[c].messages[0];
    assert(is_conversation(a[c], all));
    assert(all.contains(first));
    let k = choose|k: int| 0 <= k < all.len() && all[k] == first;
    assert(has_message(b, all[k], all));
    let d = choose|d: int|
        0 <= d < b.len() && (#[trigger] b[d]).root == root_among(first, all)
            && b[d].messages.contains(first);
    let x = a[c].messages;
    let y = b[d].messages;
    assert(is_conversation(b[d], all));
    assert forall|e: EnvelopeModel| x.contains(e) <==> y.contains(e) by {
        if x.contains(e) {
            let i = choose|i: int| 0 <= i < x.len() && x[i] == e;
            assert(all.contains(x[i]));
            let n = choose|n: int| 0 <= n < all.len() && all[n] == e;
            assert(has_message(b, all[n], all));
            let o = choose|o: int|
                0 <= o < b.len() && (#[trigger] b[o]).root == root_among(e, all)
                    && b[o].messages.contains(e);
            assert(o == d) by {
                if o < d {
                    assert(b[o].root != b[d].root);
                } else if d < o {
                    assert(b[d].root != b[o].root);
                }
            }
        }
        if y.contains(e) {
            let i = choose|i: int| 0 <= i < y.len() && y[i] == e;
            assert(all.contains(y[i]));
            let n = choose|n: int| 0 <= n < all.len() && all[n] == e;
            assert(has_message(a, all[n], all));
            let o = choose|o: int|
                0 <= o < a.len() && (#[trigger] a[o]).root == root_among(e, all)
                    && a[o].messages.contains(e);
            assert(o == c) by {
                if o < c {
                    assert(a[o].root != a[c].root);
                } else if c < o {
                    assert(a[c].root != a[o].root);
                }
            }
        }
    }
    let lt = |p: EnvelopeModel, q: EnvelopeModel| sent_before(p, q);
    assert forall|p: EnvelopeModel, q: EnvelopeModel| #[trigger] lt(p, q) implies !lt(q, p) by {
        if p.body.sent_at == q.body.sent_at {
            lemma_text_before_one_way(mid(p), mid(q));
        }
    }
    lemma_same_order(x, y, lt);
    assert(b[d] == a[c]);
}

/// There is one arrangement of a set of envelopes into conversations.
pub proof fn lemma_arrangement_is_unique(
    a: Seq<ConversationModel>,
    b: Seq<ConversationModel>,
    all: Seq<EnvelopeModel>,
)
    requires
        arranges(a, all),
        arranges(b, all),
    ensures
        a == b,
{
    assert forall|c: ConversationModel| a.contains(c) <==> b.contains(c) by {
        if a.contains(c) {
            let i = choose|i: int| 0 <= i < a.len() && a[i] == c;
            lemma_same_conversation(a, b, all, i);
        }
        if b.contains(c) {
            let i = choose|i: int| 0 <= i < b.len() && b[i] == c;
            lemma_same_conversation(b, a, all, i);
        }
    }
    let lt = |p: ConversationModel, q: ConversationModel| more_recent(p, q);
    assert forall|p: ConversationModel, q: ConversationModel| #[trigger] lt(p, q) implies !lt(
        q,
        p,
    ) by {
        if latest(p.messages) == latest(q.messages) {
            lemma_text_before_one_way(p.root, q.root);
        }
    }
    lemma_same_order(a, b, lt);
}

/// Envelopes that are handed in twice change nothing.
pub proof fn lemma_duplicates_change_nothing(envelopes: Seq<EnvelopeModel>, e: EnvelopeModel)
    requires
        has_id(envelopes, mid(e)),
    ensures
        firsts(envelopes.push(e)) == firsts(envelopes),
{
    lemma_firsts(envelopes);
    assert(envelopes.push(e).drop_last() =~= envelopes);
    assert(has_id(firsts(envelopes), mid(e)));
}

/// Whether envelopes with the same id reply to the same message, if to any.
pub open spec fn links_agree(envelopes: Seq<EnvelopeModel>) -> bool {
    forall|i: int, j: int|
        0 <= i < j < envelopes.len() && mid(#[trigger] envelopes[i]) == mid(
            #[trigger] envelopes[j],
        ) ==> envelopes[i].body.in_reply_to == envelopes[j].body.in_reply_to
}

/// Where the links agree, the link of each envelope that has one is among them.
proof fn lemma_link_is_kept(envelopes: Seq<EnvelopeModel>, i: int)
    requires
        links_agree(envelopes),
        0 <= i < envelopes.len(),
        envelopes[i].body.in_reply_to.len() > 0,
    ensures
        parents_of(envelopes).contains_key(mid(envelopes[i])),
        parents_of(envelopes)[mid(envelopes[i])] == envelopes[i].body.in_reply_to,
    decreases envelopes.len(),
{
    if i < envelopes.len() - 1 {
        let t = envelopes.drop_last();
        assert(t[i] == envelopes[i]);
        assert forall|p: int, q: int|
            0 <= p < q < t.len() && mid(#[trigger] t[p]) == mid(#[trigger] t[q]) implies
            t[p].body.in_reply_to == t[q].body.in_reply_to by {
            assert(t[p] == envelopes[p] && t[q] == envelopes[q]);
        }
        lemma_link_is_kept(t, i);
        assert(mid(envelopes[i]) == mid(envelopes.last()) ==> envelopes[i].body.in_reply_to
            == envelopes[envelopes.len() - 1].body.in_reply_to);
    }
}

/// Where the links agree, envelopes that are there twice add none.
pub proof fn lemma_links_of_firsts(envelopes: Seq<EnvelopeModel>)
    requires
        links_agree(envelopes),
    ensures
        parents_of(firsts(envelopes)) == parents_of(envelopes),
    decreases envelopes.len(),
{
    if envelopes.len() > 0 {
        let t = envelopes.drop_last();
        let e = envelopes.last();
        let f = firsts(t);
        assert forall|p: int, q: int|
            0 <= p < q < t.len() && mid(#[trigger] t[p]) == mid(#[trigger] t[q]) implies
            t[p].body.in_reply_to == t[q].body.in_reply_to by {
            assert(t[p] == envelopes[p] && t[q] == envelopes[q]);
        }
        lemma_links_of_firsts(t);
        if has_id(f, mid(e)) {
            lemma_firsts(t);
            let k = choose|k: int| 0 <= k < f.len() && mid(#[trigger] f[k]) == mid(e);
            assert(t.contains(f[k]));
            let n = choose|n: int| 0 <= n < t.len() && t[n] == f[k];
            assert(envelopes[n] == f[k]);
            assert(envelopes[envelopes.len() - 1] == e);
            if e.body.in_reply_to.len() > 0 {
                lemma_link_is_kept(t, n);
                assert(parents_of(t).insert(mid(e), e.body.in_reply_to) =~= parents_of(t));
            }
        } else {
            assert(f.push(e).drop_last() =~= f);
        }
    }
}

/// The conversations follow the roots among all envelopes handed in, those that are there twice
/// with them: every envelope has a conversation with its root, and a conversation holds a message
/// exactly when it has the root of that message. So two messages share a conversation exactly when
/// they have the same root. It holds where envelopes with the same id reply to the same message.
pub proof fn lemma_conversations_follow_roots(
    convs: Seq<ConversationModel>,
    envelopes: Seq<EnvelopeModel>,
)
    requires
        arranges(convs, firsts(envelopes)),
        links_agree(envelopes),
    ensures
        forall|k: int|
            0 <= k < envelopes.len() ==> exists|c: int|
                0 <= c < convs.len() && (#[trigger] convs[c]).root == root_among(
                    #[trigger] envelopes[k],
                    envelopes,
                ),
        forall|c: int, k: int|
            0 <= c < convs.len() && 0 <= k < envelopes.len() ==> (has_id(
                (#[trigger] convs[c]).messages,
                mid(#[trigger] envelopes[k]),
            ) <==> convs[c].root == root_among(envelopes[k], envelopes)),
{
    let all = firsts(envelopes);
    lemma_links_of_firsts(envelopes);
    lemma_firsts(envelopes);
    assert forall|k: int| 0 <= k < envelopes.len() implies exists|c: int|
        0 <= c < convs.len() && (#[trigger] convs[c]).root == root_among(
            #[trigger] envelopes[k],
            envelopes,
        ) by {
        let n = lemma_conversation_of(convs, envelopes, k);
        assert(convs[n].root == root_among(envelopes[k], envelopes));
    }
    assert forall|c: int, k: int|
        0 <= c < convs.len() && 0 <= k < envelopes.len() implies (has_id(
        (#[trigger] convs[c]).messages,
        mid(#[trigger] envelopes[k]),
    ) <==> convs[c].root == root_among(envelopes[k], envelopes)) by {
        let n = lemma_conversation_of(convs, envelopes, k);
        if convs[c].root == root_among(envelopes[k], envelopes) {
            assert(n == c) by {
                if n < c {
                    assert(convs[n].root != convs[c].root);
                }
                if c < n {
                    assert(convs[c].root != convs[n].root);
                }
            }
        }
        if has_id(convs[c].messages, mid(envelopes[k])) {
            let ms = convs[c].messages;
            let i = choose|i: int| 0 <= i < ms.len() && mid(#[trigger] ms[i]) == mid(envelopes[k]);
            assert(is_conversation(convs[c], all));
            assert(root_among(ms[i], all) == convs[c].root);
        }
    }
}

/// The conversation that holds the message of an envelope handed in, and has its root.
proof fn lemma_conversation_of(
    convs: Seq<ConversationModel>,
    envelopes: Seq<EnvelopeModel>,
    k: int,
) -> (c: int)
    requires
        arranges(convs, firsts(envelopes)),
        links_agree(envelopes),
        0 <= k < envelopes.len(),
    ensures
        0 <= c < convs.len(),
        convs[c].root == root_among(envelopes[k], envelopes),
        has_id(convs[c].messages, mid(envelopes[k])),
{
    let all = firsts(envelopes);
    lemma_links_of_firsts(envelopes);
    lemma_firsts(envelopes);
    assert(has_id(envelopes, mid(envelopes[k])));
    let i = choose|i: int| 0 <= i < all.len() && mid(#[trigger] all[i]) == mid(envelopes[k]);
    assert(has_message(convs, all[i], all));
    let c = choose|c: int|
        0 <= c < convs.len() && (#[trigger] convs[c]).root == root_among(all[i], all)
            && convs[c].messages.contains(all[i]);
    let ms = convs[c].messages;
    let p = choose|p: int| 0 <= p < ms.len() && ms[p] == all[i];
    assert(mid(ms[p]) == mid(envelopes[k]));
    c
}

} // verus!
