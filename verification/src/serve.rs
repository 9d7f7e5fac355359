//! Serving a mailbox: what is decided between polling for messages, replying and saving.
//!
//! A [`MailboxServer`] is told what came of each poll and of each inbound message, and says what to
//! reply, how long to wait, and what to save. It saves once for each batch of messages, and only if
//! something may have changed.

use crate::digest::{to_hex, NodeId};
use crate::envelope::parse_node_id;
use crate::error::SignatureError;
use crate::proto::{Grant, MailReply, MailRequest, ReplyModel, RequestModel, MAIL_TOPIC};
use crate::service::{MailService, ServiceModel};
use crate::text::same_text;
use crate::wire::Wire;
use vstd::prelude::*;

verus! {

/// The longest wait after a failed poll, in milliseconds.
pub const MAX_BACKOFF_MS: u64 = 30000;

/// The shortest time between two polls, in milliseconds.
pub const MIN_POLL_MS: u64 = 50;

/// The shortest time between two refreshes of the revocations, in seconds.
pub const MIN_REFRESH_SECS: u64 = 5;

/// `v`, but no less than `least`.
pub fn at_least(v: u64, least: u64) -> (r: u64)
    ensures
        r == (if v < least {
            least
        } else {
            v
        }),
{
    if v < least {
        least
    } else {
        v
    }
}

/// Whether handling the request can change the mailbox.
pub open spec fn mutates(request: RequestModel) -> bool {
    request is Deliver || request is Ack || request is PutReceipt || request is CollectReceipts
}

/// Whether handling the request can change the mailbox.
pub fn request_mutates(req: &MailRequest) -> (r: bool)
    ensures
        r == mutates(req@),
{
    match req {
        MailRequest::Deliver { .. } => true,
        MailRequest::Ack { .. } => true,
        MailRequest::PutReceipt { .. } => true,
        MailRequest::CollectReceipts { .. } => true,
        MailRequest::Drain { .. } => false,
        MailRequest::DrainPage { .. } => false,
    }
}

/// Whether the list names the issuer with the nonce.
pub open spec fn revokes(revoked: Seq<(String, u64)>, issuer: Seq<u8>, nonce: u64) -> bool {
    exists|i: int|
        0 <= i < revoked.len() && (#[trigger] revoked[i]).0@ == crate::digest::hex_text(issuer)
            && revoked[i].1 == nonce
}

/// Whether the grant with this number, issued by this node, is among the revoked ones.
pub fn is_revoked(revoked: &Vec<(String, u64)>, issuer: &NodeId, nonce: u64) -> (r: bool)
    ensures
        r == revokes(revoked@, issuer@, nonce),
{
    let name = to_hex(issuer.as_slice());
    let mut i: usize = 0;
    while i < revoked.len()
        invariant
            i <= revoked@.len(),
            name@ == crate::digest::hex_text(issuer@),
            forall|k: int|
                0 <= k < i ==> !((#[trigger] revoked@[k]).0@ == name@ && revoked@[k].1 == nonce),
        decreases revoked@.len() - i,
    {
        if same_text(revoked[i].0.as_str(), name.as_str()) && revoked[i].1 == nonce {
            return true;
        }
        i += 1;
    }
    false
}

/// A message that came in over the mesh.
#[derive(Debug)]
pub struct Inbound {
    /// The topic it was sent under.
    pub topic: String,
    /// The node it came from, in hex.
    pub from: String,
    /// What a reply is sent with, if one is waited for.
    pub reply_token: Option<u64>,
    /// What it carries, if that could be read.
    pub payload: Option<Vec<u8>>,
}

/// A mailbox that is served.
pub struct MailboxServer {
    service: MailService,
    poll_ms: u64,
    backoff_ms: u64,
    dirty: bool,
}

/// A served mailbox as mathematical values.
#[verifier::ext_equal]
pub struct ServerModel {
    pub service: ServiceModel,
    /// The time between two polls.
    pub poll_ms: u64,
    /// The wait after the next failed poll.
    pub backoff_ms: u64,
    /// Whether something may have changed since the last save.
    pub dirty: bool,
}

impl View for MailboxServer {
    type V = ServerModel;

    closed spec fn view(&self) -> ServerModel {
        ServerModel {
            service: self.service@,
            poll_ms: self.poll_ms,
            backoff_ms: self.backoff_ms,
            dirty: self.dirty,
        }
    }
}

/// The request in an inbound message that is to be handled, with who sent it and the token of the
/// reply; `None` if the message is to be ignored, as far as that does not hang on its grant.
pub open spec fn request_in(msg: Inbound) -> Option<(u64, Seq<u8>, RequestModel)> {
    if msg.topic@ != MAIL_TOPIC@ {
        None
    } else {
        match (msg.reply_token, crate::envelope::node_id_of(msg.from@), msg.payload) {
            (Some(token), Ok(requester), Some(payload)) => match crate::proto::parse_request(
                payload@,
            ) {
                Some(request) => Some((token, requester, request)),
                None => None,
            },
            _ => None,
        }
    }
}

/// The served mailbox after a request was handled with this result.
pub open spec fn after_handling(
    m: ServerModel,
    request: RequestModel,
    store: crate::mailbox::StoreModel,
    reply: ReplyModel,
) -> ServerModel {
    ServerModel {
        service: ServiceModel { store, limits: m.service.limits },
        dirty: m.dirty || (mutates(request) && reply !is Error),
        ..m
    }
}

/// The text of a reply as it is sent, with its token.
pub open spec fn reply_view(r: Option<(u64, Vec<u8>)>) -> Option<(u64, Seq<u8>)> {
    match r {
        Some((token, bytes)) => Some((token, bytes@)),
        None => None,
    }
}

/// The request in an inbound message that is to be handled, with the token of the reply and who
/// sent it.
fn read_request<R: Fn(&Grant) -> bool>(msg: Inbound, readable: &R) -> (r: Option<
    (u64, NodeId, MailRequest),
>)
    requires
        forall|g: &Grant| #[trigger] call_requires(*readable, (g,)),
    ensures
        match request_in(msg) {
            Some((token, requester, request)) => exists|ok: bool| #[trigger]
                crate::proto::chain_says(*readable, crate::proto::request_grant(request), ok)
                    && if ok {
                    r matches Some((t, n, q)) && t == token && n@ == requester && q@ == request
                } else {
                    r is None
                },
            None => r is None,
        },
{
    if !same_text(msg.topic.as_str(), MAIL_TOPIC) {
        return None;
    }
    let token: u64 = match msg.reply_token {
        Some(token) => token,
        None => return None,
    };
    let requester = match parse_node_id(msg.from.as_str()) {
        Ok(id) => id,
        Err(_) => return None,
    };
    let payload = match msg.payload {
        Some(bytes) => bytes,
        None => return None,
    };
    let request = match MailRequest::decode_readable(payload.as_slice(), readable) {
        Ok(request) => request,
        Err(_) => return None,
    };
    Some((token, requester, request))
}

impl MailboxServer {
    /// Whether the mailbox is in order.
    pub closed spec fn wf(&self) -> bool {
        self.service.wf()
    }

    /// Starts to serve, polling every `poll_ms` milliseconds.
    pub fn new(service: MailService, poll_ms: u64) -> (r: MailboxServer)
        requires
            service.wf(),
        ensures
            r.wf(),
            r@ == (ServerModel {
                service: service@,
                poll_ms,
                backoff_ms: poll_ms,
                dirty: false,
            }),
    {
        MailboxServer { service, poll_ms, backoff_ms: poll_ms, dirty: false }
    }

    /// The service.
    pub fn service(&self) -> (r: &MailService)
        requires
            self.wf(),
        ensures
            r.wf(),
            r@ == self@.service,
    {
        &self.service
    }

    /// Takes up that a poll failed. Returns how long to wait; the wait doubles with each failure, up
    /// to a limit.
    pub fn poll_failed(&mut self) -> (r: u64)
        requires
            old(self).wf(),
        ensures
            final(self).wf(),
            r == old(self)@.backoff_ms,
            final(self)@ == (ServerModel {
                backoff_ms: doubled(old(self)@.backoff_ms),
                ..old(self)@
            }),
    {
        let wait: u64 = self.backoff_ms;
        self.backoff_ms = if wait < MAX_BACKOFF_MS / 2 {
            wait * 2
        } else {
            MAX_BACKOFF_MS
        };
        wait
    }

    /// Takes up that a poll succeeded: the next failure waits as long as the first.
    pub fn poll_succeeded(&mut self)
        requires
            old(self).wf(),
        ensures
            final(self).wf(),
            final(self)@ == (ServerModel { backoff_ms: old(self)@.poll_ms, ..old(self)@ }),
    {
        self.backoff_ms = self.poll_ms;
    }

    /// Takes up an inbound message at the time `now`. Returns the reply to send and its token;
    /// `None` if the message is not a request that can be answered. `readable` says whether bytes
    /// are a capability chain.
    pub fn message<
        R: Fn(&Grant) -> bool,
        G: Fn(&NodeId, &NodeId, &str, &Grant, u64) -> Result<(), String>,
        F: Fn(&NodeId, &[u8], &[u8; 64]) -> bool,
    >(&mut self, msg: Inbound, now: u64, readable: &R, authorize: &G, check: &F) -> (r: Option<
        (u64, Vec<u8>),
    >)
        requires
            old(self).wf(),
            forall|g: &Grant| #[trigger] call_requires(*readable, (g,)),
            crate::mailbox::can_authorize(*authorize),
            crate::envelope::can_check(*check),
        ensures
            final(self).wf(),
            match request_in(msg) {
                None => r is None && final(self)@ == old(self)@,
                Some((token, requester, request)) => {
                    ||| crate::proto::chain_says(
                        *readable,
                        crate::proto::request_grant(request),
                        false,
                    ) && r is None && final(self)@ == old(self)@
                    ||| crate::proto::chain_says(
                        *readable,
                        crate::proto::request_grant(request),
                        true,
                    ) && exists|reply: ReplyModel| #[trigger]
                        crate::service::answers(
                            *authorize,
                            *check,
                            old(self)@.service,
                            requester,
                            request,
                            now,
                            final(self)@.service.store,
                            reply,
                        ) && reply_view(r) == Some((token, MailReply::wire(reply))) && final(self)@
                            == after_handling(
                            old(self)@,
                            request,
                            final(self)@.service.store,
                            reply,
                        )
                },
            },
    {
        let (token, requester, request): (u64, NodeId, MailRequest) = match read_request(
            msg,
            readable,
        ) {
            Some(got) => got,
            None => return None,
        };
        let ghost asked = request@;
        let may_change: bool = request_mutates(&request);
        let ghost before = self@;
        let reply = self.service.handle(&requester, request, now, authorize, check);
        let refused: bool = match &reply {
            MailReply::Error { .. } => true,
            _ => false,
        };
        if may_change && !refused {
            self.dirty = true;
        }
        assert(self@ =~= after_handling(before, asked, self@.service.store, reply@));
        Some((token, reply.encode()))
    }

    /// Ends a batch of messages. Returns the bytes to save, if something may have changed.
    pub fn end_batch(&mut self) -> (r: Option<Vec<u8>>)
        requires
            old(self).wf(),
        ensures
            final(self).wf(),
            final(self)@ == (ServerModel { dirty: false, ..old(self)@ }),
            match r {
                Some(bytes) => old(self)@.dirty && crate::mailbox::stores(
                    bytes@,
                    old(self)@.service.store,
                ),
                None => !old(self)@.dirty,
            },
    {
        if self.dirty {
            self.dirty = false;
            Some(self.service.store().to_bytes())
        } else {
            None
        }
    }
}

/// Whatever changes the mailbox is saved: a request that changes it leaves it to be saved.
pub proof fn lemma_changes_are_saved(
    m: ServerModel,
    requester: Seq<u8>,
    request: RequestModel,
    now: u64,
    gate: Result<(), Seq<char>>,
    outcome: Result<(), SignatureError>,
)
    ensures
        ({
            let (store, reply) = crate::service::handled(
                m.service,
                requester,
                request,
                now,
                gate,
                outcome,
            );
            store != m.service.store ==> after_handling(m, request, store, reply).dirty
        }),
{
}

/// The wait after one more failed poll: twice as long, but no longer than the limit.
pub open spec fn doubled(wait: u64) -> u64 {
    if 2 * wait < MAX_BACKOFF_MS {
        (2 * wait) as u64
    } else {
        MAX_BACKOFF_MS
    }
}

/// The wait after a poll fails that comes after `failures` failed polls in a row.
pub open spec fn wait_after(poll_ms: u64, failures: nat) -> u64
    decreases failures,
{
    if failures == 0 {
        poll_ms
    } else {
        doubled(wait_after(poll_ms, (failures - 1) as nat))
    }
}

/// The wait grows exponentially while polls fail, up to the limit. Only the first wait can be
/// longer than that, if the time between polls is.
pub proof fn lemma_backoff_is_bounded(poll_ms: u64, failures: nat)
    requires
        failures > 0 || poll_ms <= MAX_BACKOFF_MS,
    ensures
        ({
            let grown = poll_ms * vstd::arithmetic::power2::pow2(failures);
            wait_after(poll_ms, failures) == if grown < MAX_BACKOFF_MS {
                grown
            } else {
                MAX_BACKOFF_MS as int
            }
        }),
    decreases failures,
{
    if failures == 0 {
        vstd::arithmetic::power2::lemma2_to64();
        assert(poll_ms * 1 == poll_ms);
    } else {
        let before = (failures - 1) as nat;
        let p = vstd::arithmetic::power2::pow2(before) as int;
        vstd::arithmetic::power2::lemma_pow2_unfold(failures);
        assert(vstd::arithmetic::power2::pow2(failures) == 2 * p);
        assert(poll_ms * (2 * p) == 2 * (poll_ms * p)) by (nonlinear_arith);
        if before == 0 {
            vstd::arithmetic::power2::lemma2_to64();
            assert(poll_ms * 1 == poll_ms);
            assert(wait_after(poll_ms, before) == poll_ms);
        } else {
            lemma_backoff_is_bounded(poll_ms, before);
        }
    }
}

} // verus!
