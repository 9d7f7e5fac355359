//! Screening: a recipient's policy for mail from strangers.
//!
//! A signature says who sent a message, not whether the recipient wants it. Contacts are free.
//! Strangers prove refundable postage. Senders of good standing can be let off. What is not let in
//! is put aside as spam, or refused if the policy is strict.

use crate::directory::NameSet;
use crate::envelope::{Envelope, EnvelopeModel};
use vstd::prelude::*;

verus! {

/// An amount of money, in the smallest unit.
#[derive(Debug, Clone, Copy, PartialEq, Eq, Structural)]
pub struct Amount {
    base: u128,
}

impl Amount {
    /// The amount in the smallest unit.
    pub closed spec fn units(self) -> u128 {
        self.base
    }

    /// The amount of `base` smallest units.
    pub fn from_base(base: u128) -> (r: Amount)
        ensures
            r.units() == base,
    {
        Amount { base }
    }

    /// Nothing.
    pub fn zero() -> (r: Amount)
        ensures
            r.units() == 0,
    {
        Amount { base: 0 }
    }

    /// The amount in the smallest unit.
    pub fn base(self) -> (r: u128)
        ensures
            r == self.units(),
    {
        self.base
    }
}

/// What the policy makes of a message.
#[derive(Debug, Clone, Copy, PartialEq, Eq, Structural)]
pub enum Verdict {
    /// It goes to the inbox. `postage_held` says whether it carries postage that the recipient may
    /// give back.
    Inbox { postage_held: bool },
    /// It is put aside.
    Spam,
    /// It is not shown at all.
    Rejected,
}

impl Verdict {
    /// Whether the message goes to the inbox.
    pub fn is_inbox(self) -> (r: bool)
        ensures
            r == (self is Inbox),
    {
        match self {
            Verdict::Inbox { .. } => true,
            _ => false,
        }
    }
}

/// The standing of a sender, by what is on record of it.
#[derive(Debug, Clone, Copy, PartialEq, Eq, Structural)]
pub enum SenderStanding {
    /// Nothing is on record.
    Newcomer,
    /// Settled work or spending is on record.
    Established,
}

/// The standing of a sender whose history does, or does not, count as that of a newcomer.
pub fn standing_from_history(is_newcomer: bool) -> (r: SenderStanding)
    ensures
        r == (if is_newcomer {
            SenderStanding::Newcomer
        } else {
            SenderStanding::Established
        }),
{
    if is_newcomer {
        SenderStanding::Newcomer
    } else {
        SenderStanding::Established
    }
}

/// A recipient's policy.
pub struct ScreeningPolicy {
    me: String,
    allowlist: NameSet,
    blocklist: NameSet,
    min_postage: Amount,
    strict: bool,
    waive_postage_for_established: bool,
}

/// A policy as mathematical values.
#[verifier::ext_equal]
pub struct PolicyModel {
    /// The recipient's node id in hex.
    pub me: Seq<char>,
    /// The senders that need no postage.
    pub contacts: Set<Seq<char>>,
    /// The senders that are always refused.
    pub blocked: Set<Seq<char>>,
    /// The least postage, in the smallest unit, that a stranger must prove; with 0 any receipt will
    /// do.
    pub min_postage: u128,
    /// Whether a stranger without postage is refused, not put aside.
    pub strict: bool,
    /// Whether an established sender needs no postage.
    pub waives_established: bool,
}

impl View for ScreeningPolicy {
    type V = PolicyModel;

    closed spec fn view(&self) -> PolicyModel {
        PolicyModel {
            me: self.me@,
            contacts: self.allowlist@,
            blocked: self.blocklist@,
            min_postage: self.min_postage.units(),
            strict: self.strict,
            waives_established: self.waive_postage_for_established,
        }
    }
}

impl PolicyModel {
    /// What a stranger without acceptable postage gets.
    pub open spec fn denial(self) -> Verdict {
        if self.strict {
            Verdict::Rejected
        } else {
            Verdict::Spam
        }
    }

    /// Whether a message of this sender and standing reaches the inbox without postage.
    pub open spec fn is_free(self, from: Seq<char>, standing: SenderStanding) -> bool {
        from == self.me || self.contacts.contains(from) || (self.waives_established && standing
            == SenderStanding::Established)
    }

    /// Whether the verdict hangs on the worth of the postage. It does not where no least postage is
    /// asked for: a receipt is then enough, whatever it is worth.
    pub open spec fn asks_postage(self, e: EnvelopeModel, standing: SenderStanding) -> bool {
        e.body.to == self.me && !self.blocked.contains(e.body.from) && !self.is_free(
            e.body.from,
            standing,
        ) && e.body.postage_receipt.len() > 0 && self.min_postage > 0
    }

    /// The verdict on a message, when its postage proves to be worth `paid`, or nothing.
    pub open spec fn verdict(
        self,
        e: EnvelopeModel,
        standing: SenderStanding,
        paid: Option<u128>,
    ) -> Verdict {
        if e.body.to != self.me || self.blocked.contains(e.body.from) {
            Verdict::Rejected
        } else if self.is_free(e.body.from, standing) {
            Verdict::Inbox { postage_held: false }
        } else if e.body.postage_receipt.len() == 0 {
            self.denial()
        } else if self.min_postage == 0 {
            Verdict::Inbox { postage_held: true }
        } else {
            match paid {
                Some(amount) => if amount >= self.min_postage {
                    Verdict::Inbox { postage_held: true }
                } else {
                    self.denial()
                },
                None => self.denial(),
            }
        }
    }
}

/// Whether `verify` can find the postage receipt to be worth `paid`, or nothing.
pub open spec fn postage_says<F: Fn(&str) -> Option<Amount>>(
    verify: F,
    receipt: Seq<char>,
    paid: Option<u128>,
) -> bool {
    exists|s: &str, found: Option<Amount>|
        s@ == receipt && paid == units_of(found) && #[trigger] call_ensures(verify, (s,), found)
}

/// The amount in the smallest unit, if any.
pub open spec fn units_of(found: Option<Amount>) -> Option<u128> {
    match found {
        Some(amount) => Some(amount.units()),
        None => None,
    }
}

impl ScreeningPolicy {
    /// A policy of the recipient `me_hex` without contacts or blocked senders, for which any
    /// postage receipt is enough, which puts strangers without one aside, and which lets established
    /// senders off.
    pub fn new(me_hex: &str) -> (r: ScreeningPolicy)
        ensures
            r@ == (PolicyModel {
                me: me_hex@,
                contacts: Set::empty(),
                blocked: Set::empty(),
                min_postage: 0,
                strict: false,
                waives_established: true,
            }),
    {
        ScreeningPolicy {
            me: me_hex.to_owned(),
            allowlist: NameSet::new(),
            blocklist: NameSet::new(),
            min_postage: Amount::zero(),
            strict: false,
            waive_postage_for_established: true,
        }
    }

    /// The policy with one more contact.
    pub fn allow(self, node_hex: &str) -> (r: ScreeningPolicy)
        ensures
            r@ == (PolicyModel { contacts: self@.contacts.insert(node_hex@), ..self@ }),
    {
        let mut policy = self;
        policy.allowlist.insert(node_hex.to_owned());
        policy
    }

    /// The policy with more contacts.
    pub fn allow_all(self, nodes: Vec<String>) -> (r: ScreeningPolicy)
        ensures
            r@ == (PolicyModel {
                contacts: self@.contacts.union(nodes.deep_view().to_set()),
                ..self@
            }),
    {
        let mut policy = self;
        let ghost start = policy@;
        let ghost all = nodes.deep_view();
        let mut i: usize = 0;
        while i < nodes.len()
            invariant
                i <= nodes@.len(),
                all == nodes.deep_view(),
                forall|x: Seq<char>|
                    policy@.contacts.contains(x) <==> start.contacts.contains(x) || all.take(
                        i as int,
                    ).contains(x),
                policy@ == (PolicyModel { contacts: policy@.contacts, ..start }),
            decreases nodes@.len() - i,
        {
            let ghost before = policy@.contacts;
            policy.allowlist.insert(nodes[i].clone());
            proof {
                let a = all.take(i as int);
                let b = all.take(i + 1);
                assert(policy@.contacts =~= before.insert(all[i as int]));
                assert forall|x: Seq<char>|
                    policy@.contacts.contains(x) <==> start.contacts.contains(x) || b.contains(
                        x,
                    ) by {
                    if x == all[i as int] {
                        assert(b[i as int] == x);
                    } else if a.contains(x) {
                        let k = choose|k: int| 0 <= k < a.len() && a[k] == x;
                        assert(b[k] == x);
                    } else if b.contains(x) {
                        let k = choose|k: int| 0 <= k < b.len() && b[k] == x;
                        assert(a[k] == x);
                    }
                }
            }
            i += 1;
        }
        proof {
            assert(all.take(nodes@.len() as int) =~= all);
            assert(policy@.contacts =~= start.contacts.union(all.to_set()));
        }
        policy
    }

    /// The policy with one more blocked sender.
    pub fn block(self, node_hex: &str) -> (r: ScreeningPolicy)
        ensures
            r@ == (PolicyModel { blocked: self@.blocked.insert(node_hex@), ..self@ }),
    {
        let mut policy = self;
        policy.blocklist.insert(node_hex.to_owned());
        policy
    }

    /// The policy that asks strangers to prove at least `amount`.
    pub fn require_postage(self, amount: Amount) -> (r: ScreeningPolicy)
        ensures
            r@ == (PolicyModel { min_postage: amount.units(), ..self@ }),
    {
        let mut policy = self;
        policy.min_postage = amount;
        policy
    }

    /// The policy that refuses strangers without postage.
    pub fn strict(self) -> (r: ScreeningPolicy)
        ensures
            r@ == (PolicyModel { strict: true, ..self@ }),
    {
        let mut policy = self;
        policy.strict = true;
        policy
    }

    /// The policy that does not let established senders off.
    pub fn no_reputation_waiver(self) -> (r: ScreeningPolicy)
        ensures
            r@ == (PolicyModel { waives_established: false, ..self@ }),
    {
        let mut policy = self;
        policy.waive_postage_for_established = false;
        policy
    }

    /// Whether the node is a contact.
    pub fn is_contact(&self, node_hex: &str) -> (r: bool)
        ensures
            r == self@.contacts.contains(node_hex@),
    {
        self.allowlist.contains(node_hex)
    }

    /// Whether the node is blocked.
    pub fn is_blocked(&self, node_hex: &str) -> (r: bool)
        ensures
            r == self@.blocked.contains(node_hex@),
    {
        self.blocklist.contains(node_hex)
    }

    /// The least postage that a stranger must prove.
    pub fn min_postage(&self) -> (r: Amount)
        ensures
            r.units() == self@.min_postage,
    {
        self.min_postage
    }

    /// The verdict on an envelope whose signature was verified. `verify_postage` is asked what the
    /// postage receipt is worth to this recipient, where that matters.
    pub fn screen<F: Fn(&str) -> Option<Amount>>(
        &self,
        env: &Envelope,
        standing: SenderStanding,
        verify_postage: &F,
    ) -> (r: Verdict)
        requires
            forall|s: &str| #[trigger] call_requires(*verify_postage, (s,)),
        ensures
            exists|paid: Option<u128>| #[trigger]
                self@.verdict(env@, standing, paid) == r && (self@.asks_postage(env@, standing)
                    ==> postage_says(*verify_postage, env@.body.postage_receipt, paid)),
    {
        let ghost none: Option<u128> = None;
        let from = env.body.from.as_str();
        if env.body.to != self.me || self.is_blocked(from) {
            assert(self@.verdict(env@, standing, none) == Verdict::Rejected);
            return Verdict::Rejected;
        }
        if env.body.from == self.me || self.is_contact(from) {
            assert(self@.verdict(env@, standing, none) == (Verdict::Inbox { postage_held: false }));
            return Verdict::Inbox { postage_held: false };
        }
        if self.waive_postage_for_established && standing == SenderStanding::Established {
            assert(self@.verdict(env@, standing, none) == (Verdict::Inbox { postage_held: false }));
            return Verdict::Inbox { postage_held: false };
        }
        if env.body.postage_receipt.as_str().is_empty() {
            assert(self@.verdict(env@, standing, none) == self@.denial());
            return self.deny();
        }
        if self.min_postage.base() == 0 {
            assert(self@.verdict(env@, standing, none) == (Verdict::Inbox { postage_held: true }));
            return Verdict::Inbox { postage_held: true };
        }
        let found: Option<Amount> = verify_postage(env.body.postage_receipt.as_str());
        assert(postage_says(*verify_postage, env@.body.postage_receipt, units_of(found)));
        let r = match found {
            Some(amount) => if amount.base() >= self.min_postage.base() {
                Verdict::Inbox { postage_held: true }
            } else {
                self.deny()
            },
            None => self.deny(),
        };
        assert(self@.verdict(env@, standing, units_of(found)) == r);
        r
    }

    /// What a stranger without acceptable postage gets.
    fn deny(&self) -> (r: Verdict)
        ensures
            r == self@.denial(),
    {
        if self.strict {
            Verdict::Rejected
        } else {
            Verdict::Spam
        }
    }
}

/// Mail for someone else, and mail from a blocked sender, is refused, whatever else holds of it.
pub proof fn lemma_blocked_and_misaddressed_are_refused(
    p: PolicyModel,
    e: EnvelopeModel,
    standing: SenderStanding,
    paid: Option<u128>,
)
    requires
        e.body.to != p.me || p.blocked.contains(e.body.from),
    ensures
        p.verdict(e, standing, paid) == Verdict::Rejected,
{
}

/// A contact that is not blocked reaches the inbox for free.
pub proof fn lemma_contacts_are_free(
    p: PolicyModel,
    e: EnvelopeModel,
    standing: SenderStanding,
    paid: Option<u128>,
)
    requires
        e.body.to == p.me,
        p.contacts.contains(e.body.from),
        !p.blocked.contains(e.body.from),
    ensures
        p.verdict(e, standing, paid) == (Verdict::Inbox { postage_held: false }),
{
}

/// Who is neither a contact nor let off reaches the inbox exactly with a postage receipt that proves
/// to be worth enough, or with any receipt where nothing is asked for. The postage is then held;
/// without it the message is put aside, or refused if the policy is strict.
pub proof fn lemma_strangers_pay(
    p: PolicyModel,
    e: EnvelopeModel,
    standing: SenderStanding,
    paid: Option<u128>,
)
    requires
        e.body.to == p.me,
        !p.blocked.contains(e.body.from),
        !p.is_free(e.body.from, standing),
    ensures
        p.verdict(e, standing, paid) is Inbox <==> (e.body.postage_receipt.len() > 0 && (
        p.min_postage == 0 || (paid is Some && paid->0 >= p.min_postage))),
        p.verdict(e, standing, paid) is Inbox ==> p.verdict(e, standing, paid) == (
        Verdict::Inbox { postage_held: true }),
        p.verdict(e, standing, paid) is Inbox || p.verdict(e, standing, paid) == p.denial(),
{
}

} // verus!
