use ce_mail::digest::NodeId;
use ce_mail::envelope::{Envelope, EnvelopeBody};
use ce_mail::thread::{group_threads, parent_map, resolve_root, thread_root, ParentMap};
use ed25519_dalek::{Signer, SigningKey};
use sha2::{Digest, Sha256};

/// A node whose key is made of a tag.
struct Node {
    key: SigningKey,
}

impl Node {
    fn node_id(&self) -> NodeId {
        self.key.verifying_key().to_bytes()
    }

    fn node_id_hex(&self) -> String {
        hex::encode(self.node_id())
    }

    fn sign(&self, message: &[u8]) -> [u8; 64] {
        self.key.sign(message).to_bytes()
    }
}

fn id(tag: &str) -> Node {
    let seed: [u8; 32] = Sha256::digest(tag.as_bytes()).into();
    Node { key: SigningKey::from_bytes(&seed) }
}

fn seal_as(sender: &Node, body: EnvelopeBody) -> Envelope {
    Envelope::seal(&sender.node_id(), &|m: &[u8]| sender.sign(m), body)
}

fn env(sender: &Node, to: &str, subject: &str, in_reply_to: &str, sent_at: u64) -> Envelope {
    seal_as(
        sender,
        EnvelopeBody {
            from: String::new(),
            to: to.to_string(),
            subject: subject.to_string(),
            body_cid: String::new(),
            attachment_cids: vec![],
            in_reply_to: in_reply_to.to_string(),
            sent_at,
            postage_receipt: String::new(),
        },
    )
}

#[test]
fn single_message_is_its_own_root() {
    let s = id("t-root1");
    let r = id("t-root1r");
    let e = env(&s, &r.node_id_hex(), "hi", "", 1);
    let root = thread_root(&e, std::slice::from_ref(&e));
    assert_eq!(root, e.message_id());
}

#[test]
fn reply_resolves_to_parent_root() {
    let s = id("t-r2");
    let r = id("t-r2r");
    let root_env = env(&s, &r.node_id_hex(), "topic", "", 1);
    let root_id = root_env.message_id();
    let reply = env(&r, &s.node_id_hex(), "Re: topic", &root_id, 2);
    let set = vec![root_env.clone(), reply.clone()];
    assert_eq!(thread_root(&reply, &set), root_id);
    assert_eq!(thread_root(&root_env, &set), root_id);
}

#[test]
fn deep_chain_resolves_to_original_root() {
    let s = id("t-deep");
    let r = id("t-deepr");
    let m0 = env(&s, &r.node_id_hex(), "c", "", 1);
    let id0 = m0.message_id();
    let m1 = env(&r, &s.node_id_hex(), "Re: c", &id0, 2);
    let id1 = m1.message_id();
    let m2 = env(&s, &r.node_id_hex(), "Re: Re: c", &id1, 3);
    let set = vec![m0.clone(), m1.clone(), m2.clone()];
    assert_eq!(thread_root(&m2, &set), id0);
}

#[test]
fn reply_to_unknown_parent_uses_declared_parent_as_root() {
    let s = id("t-orphan");
    let r = id("t-orphanr");
    let phantom_parent = "ab".repeat(32);
    let reply = env(&s, &r.node_id_hex(), "Re: ghost", &phantom_parent, 5);
    assert_eq!(thread_root(&reply, std::slice::from_ref(&reply)), phantom_parent);
}

#[test]
fn cyclic_chain_does_not_loop() {
    let mut parents: ParentMap = ParentMap::new();
    parents.insert("a".to_string(), "b".to_string());
    parents.insert("b".to_string(), "a".to_string());
    let root = resolve_root(&"a".to_string(), &parents);
    assert!(root == "a" || root == "b");
}

#[test]
fn group_threads_partitions_by_root() {
    let s = id("t-grp");
    let r = id("t-grpr");
    let a0 = env(&s, &r.node_id_hex(), "alpha", "", 1);
    let a0id = a0.message_id();
    let a1 = env(&r, &s.node_id_hex(), "Re: alpha", &a0id, 2);
    let b0 = env(&s, &r.node_id_hex(), "beta", "", 3);
    let set = vec![a0.clone(), a1.clone(), b0.clone()];
    let convs = group_threads(&set);
    assert_eq!(convs.len(), 2);
    let alpha = convs.iter().find(|c| c.root == a0id).unwrap();
    assert_eq!(alpha.len(), 2);
    assert_eq!(convs[0].root, b0.message_id());
}

#[test]
fn group_threads_is_idempotent_under_duplicates() {
    let s = id("t-dup");
    let r = id("t-dupr");
    let e = env(&s, &r.node_id_hex(), "once", "", 1);
    let set = vec![e.clone(), e.clone(), e.clone()];
    let convs = group_threads(&set);
    assert_eq!(convs.len(), 1);
    assert_eq!(convs[0].len(), 1, "duplicates must not inflate the thread");
}

#[test]
fn conversation_orders_messages_chronologically() {
    let s = id("t-ord");
    let r = id("t-ordr");
    let m0 = env(&s, &r.node_id_hex(), "c", "", 10);
    let id0 = m0.message_id();
    let m1 = env(&r, &s.node_id_hex(), "Re: c", &id0, 20);
    let id1 = m1.message_id();
    let m2 = env(&s, &r.node_id_hex(), "Re: c", &id1, 30);
    let set = vec![m2.clone(), m0.clone(), m1.clone()];
    let convs = group_threads(&set);
    assert_eq!(convs.len(), 1);
    let c = &convs[0];
    assert_eq!(c.messages[0].body.sent_at, 10);
    assert_eq!(c.messages[1].body.sent_at, 20);
    assert_eq!(c.messages[2].body.sent_at, 30);
    assert_eq!(c.last_activity(), 30);
}

#[test]
fn empty_input_yields_no_conversations() {
    assert!(group_threads(&[]).is_empty());
}

#[test]
fn parents_are_the_declared_ones() {
    let s = id("par");
    let a = env(&s, "t", "a", "", 1);
    let b = env(&s, "t", "b", "p", 2);
    let parents = parent_map(&[a.clone(), b.clone()]);
    assert_eq!(parents.get(&b.message_id()).map(|p| p.as_str()), Some("p"));
    assert!(parents.get(&a.message_id()).is_none());
}

#[test]
fn a_root_is_followed_to_the_end() {
    let mut parents: ParentMap = ParentMap::new();
    parents.insert("c".to_string(), "b".to_string());
    parents.insert("b".to_string(), "a".to_string());
    assert_eq!(resolve_root(&"c".to_string(), &parents), "a");
    assert_eq!(resolve_root(&"x".to_string(), &parents), "x");
}

#[test]
fn a_conversation_is_called_by_its_first_message() {
    let s = id("call");
    let m0 = env(&s, "t", "Fwd: Topic", "", 10);
    let m1 = env(&s, "t", "Re: other", &m0.message_id(), 20);
    let convs = group_threads(&[m1, m0]);
    assert_eq!(convs.len(), 1);
    assert_eq!(convs[0].subject(), "topic");
    assert!(!convs[0].is_empty());
}

#[test]
fn equal_times_are_ordered_by_message_id_and_by_root() {
    let s = id("tie");
    let m0 = env(&s, "t", "c", "", 10);
    let a = env(&s, "t", "a", &m0.message_id(), 10);
    let b = env(&s, "t", "b", &m0.message_id(), 10);
    let other = env(&s, "t", "other", "", 10);
    let convs = group_threads(&[b.clone(), other.clone(), a.clone(), m0.clone()]);
    assert_eq!(convs.len(), 2);
    assert!(convs[0].root < convs[1].root);
    for c in &convs {
        for pair in c.messages.windows(2) {
            assert!(pair[0].message_id() < pair[1].message_id());
        }
    }
    let again = group_threads(&[m0, a, other, b]);
    let roots = |cs: &[ce_mail::thread::Conversation]| -> Vec<(String, usize)> {
        cs.iter().map(|c| (c.root.clone(), c.len())).collect()
    };
    assert_eq!(roots(&convs), roots(&again));
}

#[test]
fn a_conversation_is_called_by_its_root_even_if_the_reply_claims_to_be_older() {
    let s = id("skew");
    let m0 = env(&s, "t", "Topic", "", 10);
    let m1 = env(&s, "t", "changed", &m0.message_id(), 5);
    let convs = group_threads(&[m0, m1]);
    assert_eq!(convs.len(), 1);
    assert_eq!(convs[0].messages[0].body.sent_at, 5);
    assert_eq!(convs[0].subject(), "topic");
    let orphan = env(&s, "t", "Re: Lost", "gone", 1);
    assert_eq!(group_threads(&[orphan])[0].subject(), "lost");
}

#[test]
fn a_conversation_holds_exactly_the_messages_with_its_root() {
    let s = id("roots");
    let m0 = env(&s, "t", "one", "", 1);
    let m1 = env(&s, "t", "Re: one", &m0.message_id(), 2);
    let m2 = env(&s, "t", "Re: Re: one", &m1.message_id(), 3);
    let n0 = env(&s, "t", "two", "", 4);
    let lost = env(&s, "t", "Re: lost", "gone", 5);
    let all = [m2.clone(), n0.clone(), m0.clone(), m2, lost, m1, n0, m0];
    let convs = group_threads(&all);
    assert_eq!(convs.len(), 3);
    for e in &all {
        let root = thread_root(e, &all);
        let held: Vec<usize> = (0..convs.len())
            .filter(|c| convs[*c].messages.iter().any(|m| m.message_id() == e.message_id()))
            .collect();
        let rooted: Vec<usize> = (0..convs.len()).filter(|c| convs[*c].root == root).collect();
        assert_eq!(held.len(), 1);
        assert_eq!(held, rooted);
    }
}
