//! One mailbox for several threads: each operation has the mailbox to itself while it runs.
//!
//! What an operation finds depends on what other threads did before. The contracts say what it
//! gives for whatever it found, and what is kept up between operations. Getting at the mailbox
//! waits until it is free and does not fail. An operation that panics, which the verified functions
//! do not, never frees the mailbox: whoever asks for it after that waits for ever.

use crate::digest::NodeId;
use crate::envelope::Envelope;
use crate::error::{MailError, SignatureError};
use crate::mailbox::{Accepted, MailboxStore, StoreModel, StoredEnvelope};
use std::sync::Arc;
use vstd::prelude::*;
use vstd::rwlock::{RwLock, RwLockPredicate};

verus! {

/// What holds of a shared mailbox between any two operations: whose it is, how much it keeps, and
/// that it is tidy if it was tidy when it was shared.
pub struct Upkeep {
    pub self_id: Ghost<Seq<u8>>,
    pub capacity: Ghost<usize>,
    pub tidy: Ghost<bool>,
}

impl Upkeep {
    /// Whether the mailbox is one that may be found behind the lock.
    pub open spec fn allows(self, m: StoreModel) -> bool {
        &&& m.self_id == self.self_id@
        &&& m.capacity == self.capacity@
        &&& self.tidy@ ==> crate::mailbox_laws::tidy(m)
    }
}

impl RwLockPredicate<MailboxStore> for Upkeep {
    open spec fn inv(self, v: MailboxStore) -> bool {
        v.wf() && self.allows(v@)
    }
}

/// Whether `f` can have run on a mailbox that may be found behind the lock and given `out`.
pub open spec fn ran<R, F: FnOnce(&mut MailboxStore) -> R>(upkeep: Upkeep, f: F, out: R) -> bool {
    exists|s: &mut MailboxStore|
        s.wf() && upkeep.allows(s@) && #[trigger] call_ensures(f, (s,), out)
}

/// A mailbox that is shared; its clones share one mailbox.
pub struct SharedMailbox {
    inner: Arc<RwLock<MailboxStore, Upkeep>>,
}

impl Clone for SharedMailbox {
    fn clone(&self) -> (r: Self)
        ensures
            r.upkeep() == self.upkeep(),
    {
        SharedMailbox { inner: self.inner.clone() }
    }
}

impl SharedMailbox {
    /// What holds of the mailbox between operations.
    pub closed spec fn upkeep(&self) -> Upkeep {
        self.inner.pred()
    }

    /// Shares a mailbox.
    pub fn new(store: MailboxStore) -> (r: SharedMailbox)
        requires
            store.wf(),
        ensures
            r.upkeep().self_id@ == store@.self_id,
            r.upkeep().capacity@ == store@.capacity,
            r.upkeep().tidy@ == crate::mailbox_laws::tidy(store@),
    {
        let ghost upkeep = Upkeep {
            self_id: Ghost(store@.self_id),
            capacity: Ghost(store@.capacity),
            tidy: Ghost(crate::mailbox_laws::tidy(store@)),
        };
        SharedMailbox { inner: Arc::new(RwLock::new(store, Ghost(upkeep))) }
    }

    /// Runs `f` on the mailbox, which it has to itself meanwhile. It must take any mailbox that may
    /// be found behind the lock, and leave one that may be found there.
    pub fn with<R, F: FnOnce(&mut MailboxStore) -> R>(&self, f: F) -> (r: Result<R, MailError>)
        requires
            forall|s: &mut MailboxStore|
                s.wf() && self.upkeep().allows(s@) ==> #[trigger] call_requires(f, (s,)),
            forall|s: &mut MailboxStore, r: R|
                s.wf() && self.upkeep().allows(s@) && #[trigger] call_ensures(f, (s,), r)
                    ==> final(s).wf() && self.upkeep().allows(final(s)@),
        ensures
            r is Ok,
            ran(self.upkeep(), f, r->Ok_0),
    {
        let (mut store, handle) = self.inner.acquire_write();
        let out = f(&mut store);
        assert(ran(self.upkeep(), f, out));
        handle.release_write(store);
        Ok(out)
    }

    /// Accepts an envelope, as [`MailboxStore::accept`] does.
    pub fn accept<F: Fn(&NodeId, &[u8], &[u8; 64]) -> bool>(
        &self,
        envelope: Envelope,
        now: u64,
        check: &F,
    ) -> (r: Result<Accepted, MailError>)
        requires
            crate::envelope::can_check(*check),
        ensures
            exists|before: StoreModel, outcome: Result<(), SignatureError>|
                self.upkeep().allows(before) && #[trigger] crate::envelope::verified_as(
                    *check,
                    envelope@.body.from,
                    crate::envelope::signing_bytes(envelope@.body),
                    envelope@.sig,
                    outcome,
                ) && r == (#[trigger] before.accepting(envelope@, now, outcome)).1,
    {
        let (mut store, handle) = self.inner.acquire_write();
        let ghost before = store@;
        let r = store.accept(envelope, now, check);
        proof {
            let outcome = choose|outcome: Result<(), SignatureError>| #[trigger]
                crate::envelope::verified_as(
                    *check,
                    envelope@.body.from,
                    crate::envelope::signing_bytes(envelope@.body),
                    envelope@.sig,
                    outcome,
                ) && (store@, r) == before.accepting(envelope@, now, outcome);
            if crate::mailbox_laws::tidy(before) {
                crate::mailbox_laws::lemma_accepting_keeps_tidy(before, envelope@, now, outcome);
            }
        }
        handle.release_write(store);
        r
    }

    /// Acknowledges what was read, as [`MailboxStore::ack`] does.
    pub fn ack(&self, recipient_hex: &str, up_to_cursor: usize) -> (r: Result<usize, MailError>)
        ensures
            r is Ok,
            exists|before: StoreModel| #[trigger]
                self.upkeep().allows(before) && r->Ok_0 == before.acked(
                    recipient_hex@,
                    up_to_cursor,
                ),
    {
        let (mut store, handle) = self.inner.acquire_write();
        let ghost before = store@;
        let removed: usize = store.ack(recipient_hex, up_to_cursor);
        proof {
            if crate::mailbox_laws::tidy(before) {
                crate::mailbox_laws::lemma_acking_keeps_tidy(before, recipient_hex@, up_to_cursor);
            }
            assert(self.upkeep().allows(before));
        }
        handle.release_write(store);
        Ok(removed)
    }

    /// Reads a page, as [`MailboxStore::read_page`] does.
    pub fn read_page(&self, recipient_hex: &str, since: usize, limit: usize) -> (r: Result<
        (Vec<StoredEnvelope>, usize, bool),
        MailError,
    >)
        ensures
            r is Ok,
            exists|held: StoreModel| #[trigger]
                self.upkeep().allows(held) && (
                    r->Ok_0.0.deep_view(),
                    r->Ok_0.1,
                    r->Ok_0.2,
                ) == held.paging(recipient_hex@, since, limit),
    {
        let handle = self.inner.acquire_read();
        let page = handle.borrow().read_page(recipient_hex, since, limit);
        assert(self.upkeep().allows(handle.view()@));
        handle.release_read();
        Ok(page)
    }

    /// The number of envelopes kept for the recipient, as [`MailboxStore::pending_count`] gives it.
    pub fn pending_count(&self, recipient_hex: &str) -> (r: Result<usize, MailError>)
        ensures
            r is Ok,
            exists|held: StoreModel| #[trigger]
                self.upkeep().allows(held) && r->Ok_0 == held.inbox(recipient_hex@).len(),
            self.upkeep().tidy@ ==> r->Ok_0 <= self.upkeep().capacity@,
    {
        let handle = self.inner.acquire_read();
        let count: usize = handle.borrow().pending_count(recipient_hex);
        assert(self.upkeep().allows(handle.view()@));
        handle.release_read();
        Ok(count)
    }

    /// The bytes to save, as [`MailboxStore::to_bytes`] gives them.
    pub fn to_bytes(&self) -> (r: Result<Vec<u8>, MailError>)
        ensures
            r is Ok,
            exists|held: StoreModel| #[trigger]
                self.upkeep().allows(held) && held.cursors_fit() && held.capacity >= 1
                    && crate::mailbox::stores(r->Ok_0@, held),
    {
        let handle = self.inner.acquire_read();
        let bytes = handle.borrow().to_bytes();
        proof {
            handle.view().lemma_wf_cursors_fit();
            handle.view().lemma_wf_has_capacity();
        }
        assert(self.upkeep().allows(handle.view()@));
        handle.release_read();
        Ok(bytes)
    }
}

} // verus!
