//! What grouping mail into conversations comes to, said of calls and what they give.

use crate::envelope::Envelope;
use crate::subject::normalize_subject;
use crate::text::is_before;
use crate::thread::{group_threads, parent_map, resolve_root, thread_root, Conversation, ParentMap};
use vstd::prelude::*;

verus! {

/// The id of a message: the hash in hex of the tag and every field of its contents.
#[verifier::opaque]
pub open spec fn id_of(e: Envelope) -> Seq<char> {
    crate::digest::hex_text(
        crate::digest::sha256(
            crate::wire::text_bytes("ce-mail-envelope-v1"@)
                + crate::signing_laws::fields_in_a_row(e.body),
        ),
    )
}

/// The id of a message as the rest of the library names it is the hash of its fields.
pub proof fn lemma_id_of(e: Envelope)
    ensures
        crate::thread::mid(e@) == id_of(e),
{
    reveal(crate::envelope::message_id_of);
    reveal(id_of);
    crate::signing_laws::lemma_bytes_of_fields(e.body);
}

/// Whether two envelopes say the same and carry the same signature.
pub open spec fn same_envelope(a: Envelope, b: Envelope) -> bool {
    crate::signing_laws::same_contents(a.body, b.body) && a.sig@ == b.sig@
}

/// Whether `a` comes before `b`: where they first differ, `a` ends or has the smaller character.
pub open spec fn comes_before(a: Seq<char>, b: Seq<char>) -> bool {
    exists|k: int|
        0 <= k <= a.len() && k < b.len() && #[trigger] a.take(k) == b.take(k) && (k == a.len()
            || a[k] < b[k])
}

proof fn lemma_comes_before(a: Seq<char>, b: Seq<char>)
    ensures
        crate::text::text_before(a, b) == comes_before(a, b),
    decreases a.len(),
{
    let s = a.skip(1);
    let t = b.skip(1);
    if b.len() == 0 {
    } else if a.len() == 0 {
        assert(a.take(0) =~= b.take(0));
    } else if a[0] == b[0] {
        lemma_comes_before(s, t);
        if comes_before(s, t) {
            let k = choose|k: int|
                0 <= k <= s.len() && k < t.len() && #[trigger] s.take(k) == t.take(k) && (k
                    == s.len() || s[k] < t[k]);
            let x = a.take(k + 1);
            let y = b.take(k + 1);
            assert forall|i: int| 0 <= i < k + 1 implies #[trigger] x[i] == y[i] by {
                if i > 0 {
                    assert(s.take(k)[i - 1] == t.take(k)[i - 1]);
                }
            }
            assert(x =~= y);
        }
        if comes_before(a, b) {
            let k = choose|k: int|
                0 <= k <= a.len() && k < b.len() && #[trigger] a.take(k) == b.take(k) && (k
                    == a.len() || a[k] < b[k]);
            assert(k > 0);
            let x = s.take(k - 1);
            let y = t.take(k - 1);
            assert forall|i: int| 0 <= i < k - 1 implies #[trigger] x[i] == y[i] by {
                assert(a.take(k)[i + 1] == b.take(k)[i + 1]);
            }
            assert(x =~= y);
        }
    } else {
        assert(a.take(0) =~= b.take(0));
        if comes_before(a, b) {
            let k = choose|k: int|
                0 <= k <= a.len() && k < b.len() && #[trigger] a.take(k) == b.take(k) && (k
                    == a.len() || a[k] < b[k]);
            if k > 0 {
                assert(a.take(k)[0] == b.take(k)[0]);
            }
        }
    }
}

/// Texts are ordered by the first character in which they differ.
pub proof fn lemma_first_difference_decides(a: &str, b: &str, r: bool)
    requires
        call_ensures(is_before, (a, b), r),
    ensures
        r == comes_before(a@, b@),
{
    lemma_comes_before(a@, b@);
}

proof fn lemma_latest(messages: Seq<crate::envelope::EnvelopeModel>)
    ensures
        forall|i: int|
            0 <= i < messages.len() ==> (#[trigger] messages[i]).body.sent_at
                <= crate::thread::latest(messages),
        messages.len() == 0 ==> crate::thread::latest(messages) == 0,
        messages.len() > 0 ==> exists|i: int|
            0 <= i < messages.len() && (#[trigger] messages[i]).body.sent_at
                == crate::thread::latest(messages),
    decreases messages.len(),
{
    if messages.len() > 0 {
        let front = messages.drop_last();
        lemma_latest(front);
        let top = crate::thread::latest(messages);
        assert forall|i: int| 0 <= i < messages.len() implies (
        #[trigger] messages[i]).body.sent_at <= top by {
            if i < front.len() {
                assert(messages[i] == front[i]);
            }
        }
        if messages.last().body.sent_at == top {
            assert(messages[messages.len() - 1].body.sent_at == top);
        } else {
            let i = choose|i: int|
                0 <= i < front.len() && (#[trigger] front[i]).body.sent_at
                    == crate::thread::latest(front);
            assert(messages[i].body.sent_at == top);
        }
    }
}

/// The last activity in a conversation is when its newest message was sent, and zero if it has none.
pub proof fn lemma_last_activity_is_newest(c: &Conversation, r: u64)
    requires
        call_ensures(Conversation::last_activity, (c,), r),
    ensures
        forall|i: int|
            0 <= i < c.messages@.len() ==> (#[trigger] c.messages@[i]).body.sent_at <= r,
        c.messages@.len() == 0 ==> r == 0,
        c.messages@.len() > 0 ==> exists|i: int|
            0 <= i < c.messages@.len() && (#[trigger] c.messages@[i]).body.sent_at == r,
{
    let m = c@.messages;
    lemma_latest(m);
    assert forall|i: int| 0 <= i < c.messages@.len() implies (
    #[trigger] c.messages@[i]).body.sent_at <= r by {
        assert(m[i] == c.messages@[i]@);
    }
    if c.messages@.len() > 0 {
        let i = choose|i: int| 0 <= i < m.len() && (#[trigger] m[i]).body.sent_at == r;
        assert(c.messages@[i].body.sent_at == r);
    }
}

/// How many messages a conversation has.
pub proof fn lemma_conversation_counts(c: &Conversation, n: usize, none: bool)
    requires
        call_ensures(Conversation::len, (c,), n),
        call_ensures(Conversation::is_empty, (c,), none),
    ensures
        n == c.messages@.len(),
        none == (c.messages@.len() == 0),
{
}

/// Whether no message of the conversation was sent after the message at `i`.
pub open spec fn is_newest(c: Conversation, i: int) -> bool {
    &&& 0 <= i < c.messages@.len()
    &&& forall|j: int|
        0 <= j < c.messages@.len() ==> (#[trigger] c.messages@[j]).body.sent_at
            <= c.messages@[i].body.sent_at
}

/// Whether the message was sent no earlier than any message of the conversation.
pub open spec fn is_no_older(e: Envelope, c: Conversation) -> bool {
    forall|j: int|
        0 <= j < c.messages@.len() ==> (#[trigger] c.messages@[j]).body.sent_at <= e.body.sent_at
}

/// Whether `a` has a message that was sent no earlier than any message of `b`.
pub open spec fn is_as_recent(a: Conversation, b: Conversation) -> bool {
    exists|i: int| 0 <= i < a.messages@.len() && is_no_older(#[trigger] a.messages@[i], b)
}

/// Conversations come newest activity first: each has a message that was sent no earlier than any
/// message of the ones after it. Those whose newest messages were sent at the same time come in the
/// order of their roots.
pub proof fn lemma_conversations_newest_first(envelopes: &[Envelope], r: Vec<Conversation>)
    requires
        call_ensures(group_threads, (envelopes,), r),
    ensures
        forall|c: int, d: int|
            0 <= c < d < r@.len() ==> #[trigger] is_as_recent(r@[c], r@[d]),
        forall|c: int, d: int, i: int, j: int|
            0 <= c < d < r@.len() && #[trigger] is_newest(r@[c], i) && #[trigger] is_newest(
                r@[d],
                j,
            ) && r@[c].messages@[i].body.sent_at == r@[d].messages@[j].body.sent_at
                ==> comes_before(r@[c].root@, r@[d].root@),
{
    let m = r.deep_view();
    assert forall|c: int| 0 <= c < r@.len() implies #[trigger] m[c] == r@[c]@ by {}
    assert forall|c: int, d: int|
        0 <= c < d < r@.len() implies #[trigger] is_as_recent(r@[c], r@[d]) by {
        assert(m[c] == r@[c]@ && m[d] == r@[d]@);
        assert(crate::thread::more_recent(m[c], m[d]));
        assert(crate::thread::is_conversation(m[c], crate::thread::firsts(envelopes.deep_view())));
        let x = m[c].messages;
        let y = m[d].messages;
        lemma_latest(x);
        lemma_latest(y);
        let i = choose|i: int|
            0 <= i < x.len() && (#[trigger] x[i]).body.sent_at == crate::thread::latest(x);
        assert(x[i] == r@[c].messages@[i]@);
        assert forall|j: int| 0 <= j < r@[d].messages@.len() implies (
        #[trigger] r@[d].messages@[j]).body.sent_at <= r@[c].messages@[i].body.sent_at by {
            assert(y[j] == r@[d].messages@[j]@);
        }
        assert(is_no_older(r@[c].messages@[i], r@[d]));
    }
    assert forall|c: int, d: int, i: int, j: int|
        0 <= c < d < r@.len() && #[trigger] is_newest(r@[c], i) && #[trigger] is_newest(r@[d], j)
            && r@[c].messages@[i].body.sent_at
            == r@[d].messages@[j].body.sent_at implies comes_before(r@[c].root@, r@[d].root@) by {
        assert(m[c] == r@[c]@ && m[d] == r@[d]@);
        assert(crate::thread::more_recent(m[c], m[d]));
        lemma_newest_is_latest(r@[c], i);
        lemma_newest_is_latest(r@[d], j);
        lemma_comes_before(r@[c].root@, r@[d].root@);
    }
}

proof fn lemma_newest_is_latest(c: Conversation, i: int)
    requires
        is_newest(c, i),
    ensures
        crate::thread::latest(c@.messages) == c.messages@[i].body.sent_at,
{
    let m = c@.messages;
    lemma_latest(m);
    assert(m[i] == c.messages@[i]@);
    let k = choose|k: int|
        0 <= k < m.len() && (#[trigger] m[k]).body.sent_at == crate::thread::latest(m);
    assert(m[k] == c.messages@[k]@);
}

/// Within a conversation messages come oldest first, and those sent at the same time in the order of
/// their ids. No conversation is empty.
pub proof fn lemma_messages_oldest_first(envelopes: &[Envelope], r: Vec<Conversation>)
    requires
        call_ensures(group_threads, (envelopes,), r),
    ensures
        forall|c: int| 0 <= c < r@.len() ==> (#[trigger] r@[c]).messages@.len() > 0,
        forall|c: int, i: int, j: int|
            #![trigger r@[c].messages@[i], r@[c].messages@[j]]
            0 <= c < r@.len() && 0 <= i < j < r@[c].messages@.len() ==> {
                let a = r@[c].messages@[i];
                let b = r@[c].messages@[j];
                a.body.sent_at < b.body.sent_at || (a.body.sent_at == b.body.sent_at
                    && comes_before(id_of(a), id_of(b)))
            },
{
    let m = r.deep_view();
    let all = crate::thread::firsts(envelopes.deep_view());
    assert forall|c: int| 0 <= c < r@.len() implies (#[trigger] r@[c]).messages@.len() > 0 by {
        assert(m[c] == r@[c]@);
        assert(crate::thread::is_conversation(m[c], all));
    }
    assert forall|c: int, i: int, j: int|
        #![trigger r@[c].messages@[i], r@[c].messages@[j]]
        0 <= c < r@.len() && 0 <= i < j < r@[c].messages@.len() implies ({
        let a = r@[c].messages@[i];
        let b = r@[c].messages@[j];
        a.body.sent_at < b.body.sent_at || (a.body.sent_at == b.body.sent_at && comes_before(
            id_of(a),
            id_of(b),
        ))
    }) by {
        assert(m[c] == r@[c]@);
        assert(crate::thread::is_conversation(m[c], all));
        let a = r@[c].messages@[i];
        let b = r@[c].messages@[j];
        assert(m[c].messages[i] == a@ && m[c].messages[j] == b@);
        assert(crate::thread::sent_before(m[c].messages[i], m[c].messages[j]));
        lemma_id_of(a);
        lemma_id_of(b);
        lemma_comes_before(id_of(a), id_of(b));
    }
}

/// Whether no envelope in front of the one at `k` has its id.
pub open spec fn is_first(envelopes: Seq<Envelope>, k: int) -> bool {
    &&& 0 <= k < envelopes.len()
    &&& forall|j: int| 0 <= j < k ==> id_of(#[trigger] envelopes[j]) != id_of(envelopes[k])
}

/// Of the envelopes with one id the first stays.
proof fn lemma_firsts_are_first(envelopes: &[Envelope], n: int)
    requires
        0 <= n <= envelopes@.len(),
    ensures
        ({
            let f = crate::thread::firsts(envelopes.deep_view().take(n));
            &&& forall|i: int|
                0 <= i < f.len() ==> exists|k: int|
                    k < n && is_first(envelopes@, k) && #[trigger] f[i] == (
                    #[trigger] envelopes@[k])@
            &&& forall|k: int|
                k < n && #[trigger] is_first(envelopes@, k) ==> f.contains(envelopes@[k]@)
        }),
    decreases n,
{
    let all = envelopes.deep_view();
    let s = all.take(n);
    let f = crate::thread::firsts(s);
    if n > 0 {
        let t = all.take(n - 1);
        assert(s.drop_last() =~= t);
        let g = crate::thread::firsts(t);
        lemma_firsts_are_first(envelopes, n - 1);
        crate::thread::lemma_firsts(t);
        let e = envelopes@[n - 1];
        assert(s.last() == e@);
        lemma_id_of(e);
        let known = crate::thread::has_id(g, crate::thread::mid(e@));
        assert(known == !is_first(envelopes@, n - 1)) by {
            if known {
                assert(crate::thread::has_id(t, id_of(e)));
                let j = choose|j: int|
                    0 <= j < t.len() && crate::thread::mid(#[trigger] t[j]) == id_of(e);
                assert(t[j] == envelopes@[j]@);
                lemma_id_of(envelopes@[j]);
            }
            if !is_first(envelopes@, n - 1) {
                let j = choose|j: int|
                    0 <= j < n - 1 && id_of(#[trigger] envelopes@[j]) == id_of(e);
                lemma_id_of(envelopes@[j]);
                assert(t[j] == envelopes@[j]@);
                assert(crate::thread::mid(t[j]) == id_of(e));
                assert(crate::thread::has_id(t, id_of(e)));
            }
        }
        assert forall|i: int| 0 <= i < f.len() implies exists|k: int|
            k < n && is_first(envelopes@, k) && #[trigger] f[i] == (#[trigger] envelopes@[k])@ by {
            if i < g.len() {
                assert(f[i] == g[i]);
                let k = choose|k: int|
                    k < n - 1 && is_first(envelopes@, k) && g[i] == (#[trigger] envelopes@[k])@;
                assert(k < n && is_first(envelopes@, k) && f[i] == envelopes@[k]@);
            } else {
                assert(f[i] == envelopes@[n - 1]@);
            }
        }
        assert forall|k: int| k < n && #[trigger] is_first(envelopes@, k) implies f.contains(
            envelopes@[k]@,
        ) by {
            if k < n - 1 {
                assert(g.contains(envelopes@[k]@));
                let i = choose|i: int| 0 <= i < g.len() && g[i] == envelopes@[k]@;
                assert(f[i] == envelopes@[k]@);
            } else {
                assert(f[f.len() - 1] == e@);
            }
        }
    }
}

/// Where a message stands in the conversations.
pub open spec fn stands_at(convs: Seq<Conversation>, c: int, i: int, e: Envelope) -> bool {
    0 <= c < convs.len() && 0 <= i < convs[c].messages@.len() && same_envelope(
        convs[c].messages@[i],
        e,
    )
}

/// Grouping loses no message: of the envelopes that share an id the first one handed in stands in a
/// conversation.
pub proof fn lemma_no_message_lost(envelopes: &[Envelope], r: Vec<Conversation>)
    requires
        call_ensures(group_threads, (envelopes,), r),
    ensures
        forall|k: int| #[trigger]
            is_first(envelopes@, k) ==> exists|c: int, i: int| #[trigger]
                stands_at(r@, c, i, envelopes@[k]),
{
    let m = r.deep_view();
    let n = envelopes@.len() as int;
    let all = envelopes.deep_view();
    assert(all.take(n) =~= all);
    let f = crate::thread::firsts(all);
    lemma_firsts_are_first(envelopes, n);
    assert forall|k: int| #[trigger] is_first(envelopes@, k) implies exists|c: int, i: int|
        #[trigger] stands_at(r@, c, i, envelopes@[k]) by {
        let e = envelopes@[k];
        assert(f.contains(e@));
        let x = choose|x: int| 0 <= x < f.len() && f[x] == e@;
        assert(crate::thread::has_message(m, f[x], f));
        let c = choose|c: int|
            0 <= c < m.len() && (#[trigger] m[c]).root == crate::thread::root_among(e@, f)
                && m[c].messages.contains(e@);
        assert(m[c] == r@[c]@);
        let i = choose|i: int| 0 <= i < m[c].messages.len() && m[c].messages[i] == e@;
        assert(m[c].messages[i] == r@[c].messages@[i]@);
        crate::signing_laws::lemma_same_contents(r@[c].messages@[i].body, e.body);
        assert(stands_at(r@, c, i, e));
    }
}

/// Whether the message is the first envelope handed in with its id.
pub open spec fn was_handed_in(e: Envelope, envelopes: Seq<Envelope>) -> bool {
    exists|k: int| #[trigger] is_first(envelopes, k) && same_envelope(e, envelopes[k])
}

/// Grouping invents no message: what stands in a conversation is the first envelope handed in with its
/// id.
pub proof fn lemma_no_message_invented(envelopes: &[Envelope], r: Vec<Conversation>)
    requires
        call_ensures(group_threads, (envelopes,), r),
    ensures
        forall|c: int, i: int|
            #![trigger r@[c].messages@[i]]
            0 <= c < r@.len() && 0 <= i < r@[c].messages@.len() ==> was_handed_in(
                r@[c].messages@[i],
                envelopes@,
            ),
{
    let m = r.deep_view();
    let n = envelopes@.len() as int;
    let all = envelopes.deep_view();
    assert(all.take(n) =~= all);
    let f = crate::thread::firsts(all);
    lemma_firsts_are_first(envelopes, n);
    assert forall|c: int, i: int|
        #![trigger r@[c].messages@[i]]
        0 <= c < r@.len() && 0 <= i < r@[c].messages@.len() implies was_handed_in(
        r@[c].messages@[i],
        envelopes@,
    ) by {
        let e = r@[c].messages@[i];
        assert(m[c] == r@[c]@ && m[c].messages[i] == e@);
        assert(crate::thread::is_conversation(m[c], f));
        assert(f.contains(m[c].messages[i]));
        let x = choose|x: int| 0 <= x < f.len() && f[x] == e@;
        let k = choose|k: int|
            k < n && is_first(envelopes@, k) && f[x] == (#[trigger] envelopes@[k])@;
        crate::signing_laws::lemma_same_contents(e.body, envelopes@[k].body);
        assert(is_first(envelopes@, k) && same_envelope(e, envelopes@[k]));
    }
}

/// Grouping shows no message twice: no id stands in two places.
pub proof fn lemma_no_message_twice(envelopes: &[Envelope], r: Vec<Conversation>)
    requires
        call_ensures(group_threads, (envelopes,), r),
    ensures
        forall|c: int, i: int, d: int, j: int|
            #![trigger r@[c].messages@[i], r@[d].messages@[j]]
            0 <= c < r@.len() && 0 <= i < r@[c].messages@.len() && 0 <= d < r@.len() && 0 <= j
                < r@[d].messages@.len() && (c != d || i != j) ==> id_of(r@[c].messages@[i])
                != id_of(r@[d].messages@[j]),
{
    let m = r.deep_view();
    let all = envelopes.deep_view();
    let f = crate::thread::firsts(all);
    assert forall|c: int, i: int, d: int, j: int|
        #![trigger r@[c].messages@[i], r@[d].messages@[j]]
        0 <= c < r@.len() && 0 <= i < r@[c].messages@.len() && 0 <= d < r@.len() && 0 <= j
            < r@[d].messages@.len() && (c != d || i != j) implies id_of(r@[c].messages@[i])
        != id_of(r@[d].messages@[j]) by {
        let a = r@[c].messages@[i];
        let b = r@[d].messages@[j];
        assert(m[c] == r@[c]@ && m[c].messages[i] == a@);
        assert(m[d] == r@[d]@ && m[d].messages[j] == b@);
        lemma_id_of(a);
        lemma_id_of(b);
        assert(crate::thread::is_conversation(m[c], f));
        assert(crate::thread::is_conversation(m[d], f));
        if crate::thread::mid(a@) == crate::thread::mid(b@) {
            if c == d {
                let (x, y) = if i < j {
                    (i, j)
                } else {
                    (j, i)
                };
                assert(crate::thread::sent_before(m[c].messages[x], m[c].messages[y]));
                crate::text::lemma_text_before_irreflexive(crate::thread::mid(a@));
                assert(m[c].messages[x].body.sent_at < m[c].messages[y].body.sent_at);
                assert(f.contains(m[c].messages[x]) && f.contains(m[c].messages[y]));
                lemma_one_of_each(all, m[c].messages[x], m[c].messages[y]);
            } else {
                let root_a = crate::thread::root_among(m[c].messages[i], f);
                let root_b = crate::thread::root_among(m[d].messages[j], f);
                assert(root_a == m[c].root && root_b == m[d].root);
                if c < d {
                    assert(m[c].root != m[d].root);
                } else {
                    assert(m[d].root != m[c].root);
                }
            }
        }
    }
}

proof fn lemma_one_of_each(
    all: Seq<crate::envelope::EnvelopeModel>,
    a: crate::envelope::EnvelopeModel,
    b: crate::envelope::EnvelopeModel,
)
    requires
        crate::thread::firsts(all).contains(a),
        crate::thread::firsts(all).contains(b),
        crate::thread::mid(a) == crate::thread::mid(b),
    ensures
        a == b,
{
    crate::thread::lemma_firsts(all);
    let f = crate::thread::firsts(all);
    let x = choose|x: int| 0 <= x < f.len() && f[x] == a;
    let y = choose|y: int| 0 <= y < f.len() && f[y] == b;
    if x < y {
        assert(crate::thread::mid(f[x]) != crate::thread::mid(f[y]));
    } else if y < x {
        assert(crate::thread::mid(f[y]) != crate::thread::mid(f[x]));
    }
}

/// Whether the envelope at `k` is a reply, and the last of those with its id.
pub open spec fn is_last_link(envelopes: Seq<Envelope>, k: int) -> bool {
    &&& 0 <= k < envelopes.len()
    &&& envelopes[k].body.in_reply_to@.len() > 0
    &&& forall|j: int|
        k < j < envelopes.len() && (#[trigger] envelopes[j]).body.in_reply_to@.len() > 0 ==> id_of(
            envelopes[j],
        ) != id_of(envelopes[k])
}

proof fn lemma_parents(envelopes: &[Envelope], n: int)
    requires
        0 <= n <= envelopes@.len(),
    ensures
        ({
            let p = crate::thread::parents_of(envelopes.deep_view().take(n));
            &&& forall|k: int| #[trigger]
                is_last_link(envelopes@.take(n), k) ==> p.contains_key(id_of(envelopes@[k]))
                    && p[id_of(envelopes@[k])] == envelopes@[k].body.in_reply_to@
            &&& forall|x: Seq<char>| #[trigger]
                p.contains_key(x) ==> exists|k: int| #[trigger]
                    is_last_link(envelopes@.take(n), k) && id_of(envelopes@[k]) == x
        }),
    decreases n,
{
    let all = envelopes.deep_view();
    let s = all.take(n);
    let p = crate::thread::parents_of(s);
    let now = envelopes@.take(n);
    if n > 0 {
        let t = all.take(n - 1);
        let before = envelopes@.take(n - 1);
        assert(s.drop_last() =~= t);
        lemma_parents(envelopes, n - 1);
        let q = crate::thread::parents_of(t);
        let e = envelopes@[n - 1];
        assert(s.last() == e@);
        lemma_id_of(e);
        assert forall|k: int| #[trigger] is_last_link(now, k) implies p.contains_key(
            id_of(envelopes@[k]),
        ) && p[id_of(envelopes@[k])] == envelopes@[k].body.in_reply_to@ by {
            assert(now[k] == envelopes@[k]);
            if k < n - 1 {
                assert(now[n - 1] == e);
                assert forall|j: int|
                    k < j < before.len() && (#[trigger] before[j]).body.in_reply_to@.len()
                        > 0 implies id_of(before[j]) != id_of(before[k]) by {
                    assert(now[j] == before[j]);
                }
                assert(before[k] == now[k]);
                assert(is_last_link(before, k));
            }
        }
        assert forall|x: Seq<char>| #[trigger] p.contains_key(x) implies exists|k: int| #[trigger]
            is_last_link(now, k) && id_of(envelopes@[k]) == x by {
            if e.body.in_reply_to@.len() > 0 && x == id_of(e) {
                assert(now[n - 1] == e);
                assert(is_last_link(now, n - 1));
            } else {
                assert(q.contains_key(x));
                let k = choose|k: int| #[trigger]
                    is_last_link(before, k) && id_of(envelopes@[k]) == x;
                assert forall|j: int|
                    k < j < now.len() && (#[trigger] now[j]).body.in_reply_to@.len()
                        > 0 implies id_of(now[j]) != id_of(now[k]) by {
                    if j < n - 1 {
                        assert(before[j] == now[j] && before[k] == now[k]);
                    }
                }
                assert(before[k] == now[k]);
                assert(is_last_link(now, k));
            }
        }
    }
}

/// The parent map holds, for each id under which a reply was handed in, what the last such reply
/// replies to, and nothing else.
pub proof fn lemma_parent_map_holds_links(envelopes: &[Envelope], r: ParentMap)
    requires
        call_ensures(parent_map, (envelopes,), r),
    ensures
        r.wf(),
        forall|k: int| #[trigger]
            is_last_link(envelopes@, k) ==> r@.contains_key(id_of(envelopes@[k]))
                && r@[id_of(envelopes@[k])] == envelopes@[k].body.in_reply_to@,
        forall|x: Seq<char>| #[trigger]
            r@.contains_key(x) ==> exists|k: int| #[trigger]
                is_last_link(envelopes@, k) && id_of(envelopes@[k]) == x,
{
    let n = envelopes@.len() as int;
    lemma_parents(envelopes, n);
    assert(envelopes@.take(n) =~= envelopes@);
    assert(envelopes.deep_view().take(n) =~= envelopes.deep_view());
}

/// Whether the path goes from the message to the root by links, each to what a message replies to,
/// without coming back to a message, and ends where there is no link on, or only one back into it.
pub open spec fn leads_up(
    path: Seq<Seq<char>>,
    from: Seq<char>,
    to: Seq<char>,
    parents: Map<Seq<char>, Seq<char>>,
) -> bool {
    &&& path.len() > 0
    &&& path.first() == from
    &&& path.last() == to
    &&& forall|i: int, j: int|
        0 <= i < j < path.len() ==> #[trigger] path[i] != #[trigger] path[j]
    &&& forall|i: int|
        0 <= i < path.len() - 1 ==> parents.contains_key(#[trigger] path[i]) && path[i + 1]
            == parents[path[i]]
    &&& parents.contains_key(to) ==> exists|i: int|
        0 <= i < path.len() && #[trigger] path[i] == parents[to]
}

proof fn lemma_leads_up(
    path: Seq<Seq<char>>,
    from: Seq<char>,
    to: Seq<char>,
    parents: Map<Seq<char>, Seq<char>>,
)
    requires
        crate::thread::climbs_to_root(path, from, parents),
        path.last() == to,
    ensures
        leads_up(path, from, to, parents),
{
    if parents.contains_key(to) {
        assert(path.contains(parents[to]));
        let i = choose|i: int| 0 <= i < path.len() && path[i] == parents[to];
        assert(path[i] == parents[to]);
    }
}

/// The root of a message is where the links lead from it.
pub proof fn lemma_root_is_up_the_links(target: &String, parents: &ParentMap, r: String)
    requires
        parents.wf(),
        call_ensures(resolve_root, (target, parents), r),
    ensures
        exists|path: Seq<Seq<char>>| #[trigger] leads_up(path, target@, r@, parents@),
{
    let path = choose|path: Seq<Seq<char>>| #[trigger]
        crate::thread::climbs_to_root(path, target@, parents@) && path.last() == r@;
    lemma_leads_up(path, target@, r@, parents@);
}

/// The root of a conversation that a message belongs to is where the links of the mail lead from it.
pub proof fn lemma_thread_root_is_up_the_links(
    e: &Envelope,
    envelopes: &[Envelope],
    r: String,
    id: String,
    links: ParentMap,
    root: String,
)
    requires
        call_ensures(thread_root, (e, envelopes), r),
        call_ensures(Envelope::message_id, (e,), id),
        call_ensures(parent_map, (envelopes,), links),
        call_ensures(resolve_root, (&id, &links), root),
    ensures
        id@ == id_of(*e),
        r@ == root@,
        exists|path: Seq<Seq<char>>| #[trigger] leads_up(path, id_of(*e), r@, links@),
{
    lemma_id_of(*e);
    lemma_root_is_up_the_links(&id, &links, root);
}

/// What each message that is a reply replies to, taken from the first envelope with its id.
pub open spec fn first_links(envelopes: Seq<Envelope>) -> Map<Seq<char>, Seq<char>> {
    Map::new(
        |id: Seq<char>|
            exists|k: int| #[trigger]
                is_first(envelopes, k) && id_of(envelopes[k]) == id
                    && envelopes[k].body.in_reply_to@.len() > 0,
        |id: Seq<char>|
            envelopes[choose|k: int| #[trigger]
                is_first(envelopes, k) && id_of(envelopes[k]) == id].body.in_reply_to@,
    )
}

proof fn lemma_parents_of_distinct(f: Seq<crate::envelope::EnvelopeModel>)
    requires
        forall|i: int, j: int|
            0 <= i < j < f.len() ==> crate::thread::mid(#[trigger] f[i]) != crate::thread::mid(
                #[trigger] f[j],
            ),
    ensures
        crate::thread::parents_of(f).dom().finite(),
        forall|i: int|
            0 <= i < f.len() ==> {
                let p = crate::thread::parents_of(f);
                let id = crate::thread::mid(#[trigger] f[i]);
                &&& p.contains_key(id) <==> f[i].body.in_reply_to.len() > 0
                &&& p.contains_key(id) ==> p[id] == f[i].body.in_reply_to
            },
        forall|x: Seq<char>| #[trigger]
            crate::thread::parents_of(f).contains_key(x) ==> exists|i: int|
                0 <= i < f.len() && crate::thread::mid(#[trigger] f[i]) == x,
    decreases f.len(),
{
    if f.len() > 0 {
        let g = f.drop_last();
        assert forall|i: int, j: int| 0 <= i < j < g.len() implies crate::thread::mid(
            #[trigger] g[i],
        ) != crate::thread::mid(#[trigger] g[j]) by {
            assert(g[i] == f[i] && g[j] == f[j]);
        }
        lemma_parents_of_distinct(g);
        let p = crate::thread::parents_of(f);
        let q = crate::thread::parents_of(g);
        let e = f.last();
        assert forall|i: int| 0 <= i < f.len() implies {
            let id = crate::thread::mid(#[trigger] f[i]);
            &&& p.contains_key(id) <==> f[i].body.in_reply_to.len() > 0
            &&& p.contains_key(id) ==> p[id] == f[i].body.in_reply_to
        } by {
            if i < g.len() {
                assert(g[i] == f[i]);
                assert(crate::thread::mid(f[i]) != crate::thread::mid(f[f.len() - 1]));
            } else if q.contains_key(crate::thread::mid(e)) {
                let k = choose|k: int|
                    0 <= k < g.len() && crate::thread::mid(#[trigger] g[k]) == crate::thread::mid(
                        e,
                    );
                assert(g[k] == f[k]);
                assert(crate::thread::mid(f[k]) != crate::thread::mid(f[f.len() - 1]));
            }
        }
        assert forall|x: Seq<char>| #[trigger] p.contains_key(x) implies exists|i: int|
            0 <= i < f.len() && crate::thread::mid(#[trigger] f[i]) == x by {
            if q.contains_key(x) {
                let k = choose|k: int|
                    0 <= k < g.len() && crate::thread::mid(#[trigger] g[k]) == x;
                assert(crate::thread::mid(f[k]) == x);
            } else {
                assert(crate::thread::mid(f[f.len() - 1]) == x);
            }
        }
    }
}

proof fn lemma_first_links(envelopes: &[Envelope])
    ensures
        crate::thread::parents_of(crate::thread::firsts(envelopes.deep_view())) == first_links(
            envelopes@,
        ),
        crate::thread::parents_of(
            crate::thread::firsts(envelopes.deep_view()),
        ).dom().finite(),
{
    let all = envelopes.deep_view();
    let n = envelopes@.len() as int;
    assert(all.take(n) =~= all);
    let f = crate::thread::firsts(all);
    lemma_firsts_are_first(envelopes, n);
    crate::thread::lemma_firsts(all);
    lemma_parents_of_distinct(f);
    let p = crate::thread::parents_of(f);
    let q = first_links(envelopes@);
    assert forall|k: int| #[trigger] is_first(envelopes@, k) implies {
        let id = id_of(envelopes@[k]);
        &&& p.contains_key(id) <==> envelopes@[k].body.in_reply_to@.len() > 0
        &&& p.contains_key(id) ==> p[id] == envelopes@[k].body.in_reply_to@
    } by {
        assert(f.contains(envelopes@[k]@));
        let i = choose|i: int| 0 <= i < f.len() && f[i] == envelopes@[k]@;
        lemma_id_of(envelopes@[k]);
        assert(crate::thread::mid(f[i]) == id_of(envelopes@[k]));
    }
    assert forall|x: Seq<char>| p.contains_key(x) implies #[trigger] q.contains_key(x) && q[x]
        == p[x] by {
        let i = choose|i: int| 0 <= i < f.len() && crate::thread::mid(#[trigger] f[i]) == x;
        let k = choose|k: int|
            k < n && is_first(envelopes@, k) && f[i] == (#[trigger] envelopes@[k])@;
        lemma_id_of(envelopes@[k]);
        assert(is_first(envelopes@, k) && id_of(envelopes@[k]) == x);
        let l = choose|l: int| #[trigger] is_first(envelopes@, l) && id_of(envelopes@[l]) == x;
        assert(q[x] == envelopes@[l].body.in_reply_to@);
    }
    assert forall|x: Seq<char>| #[trigger] q.contains_key(x) implies p.contains_key(x) by {
        let k = choose|k: int| #[trigger]
            is_first(envelopes@, k) && id_of(envelopes@[k]) == x
                && envelopes@[k].body.in_reply_to@.len() > 0;
        assert(p.contains_key(id_of(envelopes@[k])));
    }
    assert(p =~= q);
}

proof fn lemma_path_exists(
    path: Seq<Seq<char>>,
    target: Seq<char>,
    parents: Map<Seq<char>, Seq<char>>,
) -> (whole: Seq<Seq<char>>)
    requires
        parents.dom().finite(),
        crate::thread::climbs(path, target, parents),
    ensures
        crate::thread::climbs_to_root(whole, target, parents),
    decreases parents.dom().len() + 1 - path.len(),
{
    if crate::thread::climbs_to_root(path, target, parents) {
        path
    } else {
        let next = parents[path.last()];
        path.unique_seq_to_set();
        assert(path.to_set().subset_of(parents.dom())) by {
            assert forall|x: Seq<char>| path.to_set().contains(x) implies parents.dom().contains(
                x,
            ) by {
                let i = choose|i: int| 0 <= i < path.len() && path[i] == x;
                if i < path.len() - 1 {
                    assert(parents.contains_key(path[i]));
                }
            }
        }
        vstd::set_lib::lemma_len_subset(path.to_set(), parents.dom());
        let longer = path.push(next);
        assert forall|i: int, j: int|
            0 <= i < longer.len() && 0 <= j < longer.len() && i != j implies longer[i]
            != longer[j] by {
            if i < path.len() && j < path.len() {
                assert(path[i] != path[j]);
            } else if i < path.len() {
                assert(path.contains(path[i]));
            } else {
                assert(path.contains(path[j]));
            }
        }
        assert forall|i: int| 0 <= i < longer.len() - 1 implies parents.contains_key(
            #[trigger] longer[i],
        ) && parents[longer[i]] == longer[i + 1] by {
            assert(longer[i] == path[i]);
            if i < path.len() - 1 {
                assert(longer[i + 1] == path[i + 1]);
            }
        }
        lemma_path_exists(longer, target, parents)
    }
}

/// Whether the links lead up from the message to the conversation's root.
pub open spec fn belongs(e: Envelope, c: Conversation, links: Map<Seq<char>, Seq<char>>) -> bool {
    exists|path: Seq<Seq<char>>| #[trigger] leads_up(path, id_of(e), c.root@, links)
}

/// Every message of a conversation leads up to the conversation's root by the links of the mail, and
/// the roots of different conversations differ. So two messages share a conversation exactly if they
/// lead up to the same root.
pub proof fn lemma_conversations_lead_to_roots(envelopes: &[Envelope], r: Vec<Conversation>)
    requires
        call_ensures(group_threads, (envelopes,), r),
    ensures
        forall|c: int, i: int|
            #![trigger r@[c].messages@[i]]
            0 <= c < r@.len() && 0 <= i < r@[c].messages@.len() ==> belongs(
                r@[c].messages@[i],
                r@[c],
                first_links(envelopes@),
            ),
        forall|c: int, d: int|
            0 <= c < d < r@.len() ==> (#[trigger] r@[c]).root@ != (#[trigger] r@[d]).root@,
{
    let m = r.deep_view();
    let f = crate::thread::firsts(envelopes.deep_view());
    let p = first_links(envelopes@);
    lemma_first_links(envelopes);
    assert forall|c: int, i: int|
        #![trigger r@[c].messages@[i]]
        0 <= c < r@.len() && 0 <= i < r@[c].messages@.len() implies belongs(
        r@[c].messages@[i],
        r@[c],
        p,
    ) by {
        let e = r@[c].messages@[i];
        assert(m[c] == r@[c]@ && m[c].messages[i] == e@);
        assert(crate::thread::is_conversation(m[c], f));
        lemma_id_of(e);
        let path = lemma_path_exists(seq![id_of(e)], id_of(e), p);
        crate::thread::lemma_root_by_path(path, id_of(e), p);
        assert(crate::thread::root_among(m[c].messages[i], f) == path.last());
        lemma_leads_up(path, id_of(e), r@[c].root@, p);
    }
    assert forall|c: int, d: int| 0 <= c < d < r@.len() implies (#[trigger] r@[c]).root@ != (
    #[trigger] r@[d]).root@ by {
        assert(m[c] == r@[c]@ && m[d] == r@[d]@);
    }
}

/// A conversation is titled by the message that started it, and by its first message where that one is
/// missing. A conversation without messages has an empty title.
pub proof fn lemma_title_is_of_root(
    c: &Conversation,
    k: int,
    subject: &str,
    clean: String,
    r: String,
)
    requires
        call_ensures(Conversation::subject, (c,), r),
        0 <= k < c.messages@.len() ==> subject@ == c.messages@[k].body.subject@,
        call_ensures(normalize_subject, (subject,), clean),
    ensures
        c.messages@.len() == 0 ==> r@.len() == 0,
        0 <= k < c.messages@.len() && id_of(c.messages@[k]) == c.root@ && (forall|j: int|
            0 <= j < k ==> id_of(#[trigger] c.messages@[j]) != c.root@) ==> r@ == clean@,
        k == 0 && c.messages@.len() > 0 && (forall|j: int|
            0 <= j < c.messages@.len() ==> id_of(#[trigger] c.messages@[j]) != c.root@) ==> r@
            == clean@,
{
    let m = c@;
    assert forall|j: int| 0 <= j < m.messages.len() implies crate::thread::mid(
        #[trigger] m.messages[j],
    ) == id_of(c.messages@[j]) by {
        assert(m.messages[j] == c.messages@[j]@);
        lemma_id_of(c.messages@[j]);
    }
    if 0 <= k < c.messages@.len() && id_of(c.messages@[k]) == c.root@ && (forall|j: int|
        0 <= j < k ==> id_of(#[trigger] c.messages@[j]) != c.root@) {
        assert(crate::thread::mid(m.messages[k]) == c.root@);
        assert(crate::thread::is_title(m, k));
        let t = crate::thread::title_at(m);
        assert(crate::thread::is_title(m, t));
        if t < k {
            assert(id_of(c.messages@[t]) != c.root@);
        } else if t > k {
            assert(crate::thread::mid(m.messages[k]) != c.root@);
        }
        assert(m.messages[k] == c.messages@[k]@);
    }
    if k == 0 && c.messages@.len() > 0 && (forall|j: int|
        0 <= j < c.messages@.len() ==> id_of(#[trigger] c.messages@[j]) != c.root@) {
        assert forall|i: int| !crate::thread::is_title(m, i) by {
            if 0 <= i < m.messages.len() {
                assert(id_of(c.messages@[i]) != c.root@);
            }
        }
        assert(m.messages[0] == c.messages@[0]@);
    }
}

} // verus!
