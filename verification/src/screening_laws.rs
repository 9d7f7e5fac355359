//! What a recipient gets from a screening policy, said of calls and what they give.

use crate::client::{screen_messages, Message};
use crate::envelope::Envelope;
use crate::screening::{standing_from_history, Amount, ScreeningPolicy, SenderStanding, Verdict};
use vstd::prelude::*;

verus! {

/// Mail for somebody else, and mail from a blocked sender, is refused, whoever sent it, whatever its
/// postage is worth, and whether or not the policy is strict.
pub proof fn lemma_refused_whatever_else_holds<F: Fn(&str) -> Option<Amount>>(
    p: &ScreeningPolicy,
    e: &Envelope,
    standing: SenderStanding,
    verify: &F,
    r: Verdict,
)
    requires
        call_ensures(ScreeningPolicy::screen::<F>, (p, e, standing, verify), r),
        e.body.to@ != p@.me || p@.blocked.contains(e.body.from@),
    ensures
        r == Verdict::Rejected,
{
}

/// Mail to the recipient from somebody who is not blocked reaches the inbox, with no postage held,
/// when it comes from the recipient, from a contact, or, where the policy lets established senders
/// off, from an established sender. Neither strictness nor a least postage changes that, and nothing
/// else that the envelope says does.
pub proof fn lemma_free_mail_reaches_inbox<F: Fn(&str) -> Option<Amount>>(
    p: &ScreeningPolicy,
    e: &Envelope,
    standing: SenderStanding,
    verify: &F,
    r: Verdict,
)
    requires
        call_ensures(ScreeningPolicy::screen::<F>, (p, e, standing, verify), r),
        e.body.to@ == p@.me,
        !p@.blocked.contains(e.body.from@),
        e.body.from@ == p@.me || p@.contacts.contains(e.body.from@) || (p@.waives_established
            && standing == SenderStanding::Established),
    ensures
        r == (Verdict::Inbox { postage_held: false }),
{
}

/// Whether the sender is a stranger to the policy: not the recipient, not blocked, no contact, and
/// not let off for being established.
pub open spec fn is_stranger(p: &ScreeningPolicy, from: Seq<char>, standing: SenderStanding) -> bool {
    &&& from != p@.me
    &&& !p@.blocked.contains(from)
    &&& !p@.contacts.contains(from)
    &&& !p@.waives_established || standing == SenderStanding::Newcomer
}

/// A stranger without a postage receipt is put aside, and refused if the policy is strict.
pub proof fn lemma_stranger_without_receipt<F: Fn(&str) -> Option<Amount>>(
    p: &ScreeningPolicy,
    e: &Envelope,
    standing: SenderStanding,
    verify: &F,
    r: Verdict,
)
    requires
        call_ensures(ScreeningPolicy::screen::<F>, (p, e, standing, verify), r),
        is_stranger(p, e.body.from@, standing),
        e.body.postage_receipt@.len() == 0,
    ensures
        r is Inbox == false,
        e.body.to@ == p@.me ==> (r == Verdict::Rejected <==> p@.strict),
        e.body.to@ == p@.me ==> (r == Verdict::Spam <==> !p@.strict),
{
}

/// A stranger with a postage receipt reaches the inbox, with the postage held, if nothing is asked
/// for, or if whatever the receipt can prove to be worth is enough.
pub proof fn lemma_stranger_who_pays<F: Fn(&str) -> Option<Amount>>(
    p: &ScreeningPolicy,
    e: &Envelope,
    standing: SenderStanding,
    verify: &F,
    r: Verdict,
)
    requires
        call_ensures(ScreeningPolicy::screen::<F>, (p, e, standing, verify), r),
        e.body.to@ == p@.me,
        is_stranger(p, e.body.from@, standing),
        e.body.postage_receipt@.len() > 0,
        p@.min_postage == 0 || forall|s: &str, found: Option<Amount>|
            s@ == e.body.postage_receipt@ && #[trigger] call_ensures(*verify, (s,), found)
                ==> found is Some && found->0.units() >= p@.min_postage,
    ensures
        r == (Verdict::Inbox { postage_held: true }),
{
}

/// A stranger whose postage receipt can only prove to be worth nothing, or less than is asked for, is
/// put aside, and refused if the policy is strict.
pub proof fn lemma_stranger_who_pays_too_little<F: Fn(&str) -> Option<Amount>>(
    p: &ScreeningPolicy,
    e: &Envelope,
    standing: SenderStanding,
    verify: &F,
    r: Verdict,
)
    requires
        call_ensures(ScreeningPolicy::screen::<F>, (p, e, standing, verify), r),
        e.body.to@ == p@.me,
        is_stranger(p, e.body.from@, standing),
        p@.min_postage > 0,
        forall|s: &str, found: Option<Amount>|
            s@ == e.body.postage_receipt@ && #[trigger] call_ensures(*verify, (s,), found) ==> (
            found matches Some(amount) ==> amount.units() < p@.min_postage),
    ensures
        r == Verdict::Rejected <==> p@.strict,
        r == Verdict::Spam <==> !p@.strict,
{
}

/// The standing of the sender matters only where the policy lets established senders off, and its
/// postage never to one who is known: of two calls that differ in nothing else but these, both give
/// the same.
pub proof fn lemma_standing_matters_only_with_waiver<
    F: Fn(&str) -> Option<Amount>,
    G: Fn(&str) -> Option<Amount>,
>(
    p: &ScreeningPolicy,
    e: &Envelope,
    a: SenderStanding,
    b: SenderStanding,
    verify: &F,
    other: &G,
    r: Verdict,
    s: Verdict,
)
    requires
        call_ensures(ScreeningPolicy::screen::<F>, (p, e, a, verify), r),
        call_ensures(ScreeningPolicy::screen::<G>, (p, e, b, other), s),
        a == b || !p@.waives_established,
        !is_stranger(p, e.body.from@, a) || e.body.postage_receipt@.len() == 0 || p@.min_postage
            == 0,
    ensures
        r == s,
{
}

/// A new policy knows nobody, blocks nobody, asks for no least postage, puts aside what it does not
/// let in, and lets established senders off.
pub proof fn lemma_new_policy(me: &str, p: ScreeningPolicy, x: Seq<char>)
    requires
        call_ensures(ScreeningPolicy::new, (me,), p),
    ensures
        p@.me == me@,
        !p@.contacts.contains(x),
        !p@.blocked.contains(x),
        p@.min_postage == 0,
        !p@.strict,
        p@.waives_established,
{
}

/// Whether two policies differ at most in their contacts.
pub open spec fn same_but_contacts(p: ScreeningPolicy, q: ScreeningPolicy) -> bool {
    &&& p@.me == q@.me
    &&& p@.blocked == q@.blocked
    &&& p@.min_postage == q@.min_postage
    &&& p@.strict == q@.strict
    &&& p@.waives_established == q@.waives_established
}

/// Allowing adds the node to the contacts and changes nothing else.
pub proof fn lemma_allow(p: ScreeningPolicy, node: &str, q: ScreeningPolicy, x: Seq<char>)
    requires
        call_ensures(ScreeningPolicy::allow, (p, node), q),
    ensures
        same_but_contacts(p, q),
        q@.contacts.contains(x) <==> x == node@ || p@.contacts.contains(x),
{
}

/// Allowing many adds each of them to the contacts and changes nothing else.
pub proof fn lemma_allow_all(
    p: ScreeningPolicy,
    nodes: Vec<String>,
    q: ScreeningPolicy,
    x: Seq<char>,
)
    requires
        call_ensures(ScreeningPolicy::allow_all, (p, nodes), q),
    ensures
        same_but_contacts(p, q),
        q@.contacts.contains(x) <==> p@.contacts.contains(x) || exists|i: int|
            0 <= i < nodes@.len() && (#[trigger] nodes@[i])@ == x,
{
    let all = nodes.deep_view();
    if all.contains(x) {
        let i = choose|i: int| 0 <= i < all.len() && all[i] == x;
        assert(nodes@[i]@ == x);
    }
    if exists|i: int| 0 <= i < nodes@.len() && (#[trigger] nodes@[i])@ == x {
        let i = choose|i: int| 0 <= i < nodes@.len() && (#[trigger] nodes@[i])@ == x;
        assert(all[i] == x);
    }
}

/// Blocking adds the node to the blocked senders and changes nothing else; a contact stays one.
pub proof fn lemma_block(p: ScreeningPolicy, node: &str, q: ScreeningPolicy, x: Seq<char>)
    requires
        call_ensures(ScreeningPolicy::block, (p, node), q),
    ensures
        q@.blocked.contains(x) <==> x == node@ || p@.blocked.contains(x),
        q@.contacts == p@.contacts,
        q@.me == p@.me,
        q@.min_postage == p@.min_postage,
        q@.strict == p@.strict,
        q@.waives_established == p@.waives_established,
{
}

/// Each of the other settings is what was asked for, and nothing else changes.
pub proof fn lemma_settings(
    p: ScreeningPolicy,
    amount: Amount,
    paid: ScreeningPolicy,
    strict: ScreeningPolicy,
    unwaived: ScreeningPolicy,
)
    requires
        call_ensures(ScreeningPolicy::require_postage, (p, amount), paid),
        call_ensures(ScreeningPolicy::strict, (p,), strict),
        call_ensures(ScreeningPolicy::no_reputation_waiver, (p,), unwaived),
    ensures
        paid@.min_postage == amount.units(),
        paid@.strict == p@.strict,
        paid@.waives_established == p@.waives_established,
        strict@.strict,
        strict@.min_postage == p@.min_postage,
        strict@.waives_established == p@.waives_established,
        !unwaived@.waives_established,
        unwaived@.min_postage == p@.min_postage,
        unwaived@.strict == p@.strict,
        paid@.me == p@.me && strict@.me == p@.me && unwaived@.me == p@.me,
        paid@.contacts == p@.contacts && strict@.contacts == p@.contacts && unwaived@.contacts
            == p@.contacts,
        paid@.blocked == p@.blocked && strict@.blocked == p@.blocked && unwaived@.blocked
            == p@.blocked,
{
}

/// A policy answers who is a contact, who is blocked and what is asked for as it screens by them.
pub proof fn lemma_policy_tells(
    p: &ScreeningPolicy,
    node: &str,
    contact: bool,
    blocked: bool,
    least: Amount,
    units: u128,
)
    requires
        call_ensures(ScreeningPolicy::is_contact, (p, node), contact),
        call_ensures(ScreeningPolicy::is_blocked, (p, node), blocked),
        call_ensures(ScreeningPolicy::min_postage, (p,), least),
        call_ensures(Amount::base, (least,), units),
    ensures
        contact <==> p@.contacts.contains(node@),
        blocked <==> p@.blocked.contains(node@),
        units == p@.min_postage,
{
}

/// An amount is worth what it was made of; a verdict is for the inbox exactly if it says so; a history
/// that is not a newcomer's makes a sender established.
pub proof fn lemma_small_answers(
    base: u128,
    amount: Amount,
    zero: Amount,
    v: Verdict,
    inbox: bool,
    newcomer: bool,
    standing: SenderStanding,
)
    requires
        call_ensures(Amount::from_base, (base,), amount),
        call_ensures(Amount::zero, (), zero),
        call_ensures(Verdict::is_inbox, (v,), inbox),
        call_ensures(standing_from_history, (newcomer,), standing),
    ensures
        amount.units() == base,
        zero.units() == 0,
        inbox <==> v != Verdict::Spam && v != Verdict::Rejected,
        standing == SenderStanding::Newcomer <==> newcomer,
{
}

/// Whether the verdict is what the policy owes the message: what is for somebody else or from a blocked
/// sender is refused; what is free reaches the inbox; a stranger reaches it who has a receipt that is
/// worth enough, with the postage held, and no other stranger does.
pub open spec fn is_owed<F: Fn(&str) -> Option<Amount>>(
    p: ScreeningPolicy,
    e: Envelope,
    standing: SenderStanding,
    verify: F,
    r: Verdict,
) -> bool {
    let refused = e.body.to@ != p@.me || p@.blocked.contains(e.body.from@);
    let stranger = is_stranger(&p, e.body.from@, standing);
    let shows = e.body.postage_receipt@.len() > 0;
    let pays = p@.min_postage == 0 || forall|s: &str, found: Option<Amount>|
        s@ == e.body.postage_receipt@ && #[trigger] call_ensures(verify, (s,), found)
            ==> found is Some && found->0.units() >= p@.min_postage;
    let owes = p@.min_postage > 0 && forall|s: &str, found: Option<Amount>|
        s@ == e.body.postage_receipt@ && #[trigger] call_ensures(verify, (s,), found) ==> (
        found matches Some(amount) ==> amount.units() < p@.min_postage);
    &&& refused ==> r == Verdict::Rejected
    &&& !refused && !stranger ==> r == (Verdict::Inbox { postage_held: false })
    &&& !refused && stranger && shows && pays ==> r == (Verdict::Inbox { postage_held: true })
    &&& !refused && stranger && (!shows || owes) ==> r == if p@.strict {
        Verdict::Rejected
    } else {
        Verdict::Spam
    }
}

/// Messages are split by the verdict that the policy owes each of them: those for the inbox and those
/// put aside, each in their order and as they are, and those that are refused in neither.
pub proof fn lemma_messages_are_split<F: Fn(&str) -> Option<Amount>>(
    p: &ScreeningPolicy,
    messages: Vec<Message>,
    standings: &Vec<SenderStanding>,
    verify: &F,
    r: (Vec<Message>, Vec<Message>),
)
    requires
        messages@.len() == standings@.len(),
        call_ensures(screen_messages::<F>, (p, messages, standings, verify), r),
    ensures
        exists|verdicts: Seq<Verdict>, inbox: Seq<int>, aside: Seq<int>| #[trigger]
            is_split(*p, messages@, standings@, *verify, r, verdicts, inbox, aside),
{
    let all = messages.deep_view();
    let verdicts = choose|verdicts: Seq<Verdict>| #[trigger]
        crate::client::screens(p@, all, standings@, *verify, verdicts) && r.0.deep_view()
            == crate::client::kept(all, crate::client::let_in(verdicts)) && r.1.deep_view()
            == crate::client::kept(all, crate::client::put_aside(verdicts));
    assert(all.len() == messages@.len());
    let inbox = crate::client_laws::lemma_kept_places(all, crate::client::let_in(verdicts));
    let aside = crate::client_laws::lemma_kept_places(all, crate::client::put_aside(verdicts));
    let x = r.0.deep_view();
    let y = r.1.deep_view();
    assert(x.len() == r.0@.len() && y.len() == r.1@.len());
    assert forall|k: int| 0 <= k < messages@.len() implies {
        &&& is_owed(
            *p,
            (#[trigger] messages@[k]).envelope,
            standings@[k],
            *verify,
            verdicts[k],
        )
        &&& verdicts[k] is Inbox <==> inbox.contains(k)
        &&& verdicts[k] is Spam <==> aside.contains(k)
    } by {
        assert(all[k] == messages@[k]@);
        assert(crate::client::gets_verdict(p@, all[k], standings@[k], *verify, verdicts[k]));
        assert(crate::client::let_in(verdicts)[k] <==> inbox.contains(k));
        assert(crate::client::put_aside(verdicts)[k] <==> aside.contains(k));
    }
    assert forall|i: int| 0 <= i < r.0@.len() implies is_same_message(
        #[trigger] r.0@[i],
        messages@[inbox[i]],
    ) by {
        assert(x[i] == r.0@[i]@);
        assert(x[i] == all[inbox[i]]);
        assert(all[inbox[i]] == messages@[inbox[i]]@);
        crate::signing_laws::lemma_same_contents(
            r.0@[i].envelope.body,
            messages@[inbox[i]].envelope.body,
        );
    }
    assert forall|i: int| 0 <= i < r.1@.len() implies is_same_message(
        #[trigger] r.1@[i],
        messages@[aside[i]],
    ) by {
        assert(y[i] == r.1@[i]@);
        assert(y[i] == all[aside[i]]);
        assert(all[aside[i]] == messages@[aside[i]]@);
        crate::signing_laws::lemma_same_contents(
            r.1@[i].envelope.body,
            messages@[aside[i]].envelope.body,
        );
    }
    assert(is_split(*p, messages@, standings@, *verify, r, verdicts, inbox, aside));
}

/// Whether the two messages are the same.
pub open spec fn is_same_message(a: Message, b: Message) -> bool {
    &&& crate::thread_laws::same_envelope(a.envelope, b.envelope)
    &&& a.body@ == b.body@
    &&& crate::client::text_view(a.sealed_subject) == crate::client::text_view(b.sealed_subject)
}

/// Whether the messages are split by these verdicts, which are owed, with the messages at `inbox` in
/// the one part and those at `aside` in the other.
pub open spec fn is_split<F: Fn(&str) -> Option<Amount>>(
    p: ScreeningPolicy,
    messages: Seq<Message>,
    standings: Seq<SenderStanding>,
    verify: F,
    r: (Vec<Message>, Vec<Message>),
    verdicts: Seq<Verdict>,
    inbox: Seq<int>,
    aside: Seq<int>,
) -> bool {
    &&& verdicts.len() == messages.len()
    &&& crate::client_laws::picks(inbox, messages.len() as int)
    &&& crate::client_laws::picks(aside, messages.len() as int)
    &&& inbox.len() == r.0@.len()
    &&& aside.len() == r.1@.len()
    &&& forall|k: int|
        0 <= k < messages.len() ==> {
            &&& is_owed(p, (#[trigger] messages[k]).envelope, standings[k], verify, verdicts[k])
            &&& verdicts[k] is Inbox <==> inbox.contains(k)
            &&& verdicts[k] is Spam <==> aside.contains(k)
        }
    &&& forall|i: int|
        0 <= i < r.0@.len() ==> is_same_message(#[trigger] r.0@[i], messages[inbox[i]])
    &&& forall|i: int|
        0 <= i < r.1@.len() ==> is_same_message(#[trigger] r.1@[i], messages[aside[i]])
}

} // verus!
