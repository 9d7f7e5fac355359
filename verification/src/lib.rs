//! Mail between nodes of a mesh, in which an address is a public key.
//!
//! Every message is signed by its sender and sealed to its recipient. What travels is a small
//! signed [`envelope`] that names the sealed body and attachments by their content address; a
//! [`mailbox`] keeps envelopes for recipients who are away and never sees a plaintext.
//!
//! * [`wire`] is the binary form of everything that leaves the process.
//! * [`digest`] and [`text`] are hashes, hex and the operations on characters.
//! * [`error`] is what can go wrong, with its messages.
//! * [`envelope`], [`attachment`] and [`receipt`] are what is signed, sealed and acknowledged.
//! * [`crypto`] seals and opens bodies and attachments.
//! * [`limits`] bounds what is accepted.
//! * [`proto`] is the requests and replies.
//! * [`directory`] files values under names; [`mailbox`] and [`service`] are built on it, and
//!   [`mailbox_laws`] and [`service_laws`] say what holds of them.
//! * [`shared`] shares one mailbox between threads.
//! * [`subject`] and [`thread`] arrange envelopes into conversations.
//! * [`screening`] is a recipient's policy for mail from strangers.
//! * [`client`] and [`serve`] decide what a client and a mailbox do between the turns of the
//!   network, [`persist`] says where a file is written before it is replaced, and [`listing`] is
//!   what a command line shows.
//!
//! What the operations are for is stated of their calls, in terms of what goes in and what comes
//! out: [`signing_laws`] of envelopes and receipts, [`crypto_laws`] of sealing, [`proto_laws`] of
//! the wire, [`bounds_laws`] of the limits, [`store_laws`] of the mailbox, [`handling_laws`] and
//! [`serve_laws`] of the service, [`thread_laws`] and [`subject_laws`] of conversations,
//! [`screening_laws`] of the policy, [`client_laws`] of the client, [`error_laws`] of the messages,
//! and [`value_laws`] of the small operations.
//!
//! Signatures and capability chains are checked by functions that the caller hands in; the
//! contracts say what these are asked and what is made of their answers.

pub mod attachment;
pub mod bounds_laws;
pub mod client;
pub mod client_laws;
pub mod crypto;
pub mod crypto_laws;
pub mod digest;
pub mod directory;
pub mod envelope;
pub mod error;
pub mod error_laws;
pub mod handling_laws;
pub mod limits;
pub mod listing;
pub mod mailbox;
pub mod mailbox_laws;
pub mod persist;
pub mod proto;
pub mod proto_laws;
pub mod receipt;
pub mod screening;
pub mod screening_laws;
pub mod serve;
pub mod serve_laws;
pub mod service;
pub mod service_laws;
pub mod shared;
pub mod signing_laws;
pub mod store_laws;
pub mod subject;
pub mod subject_laws;
pub mod text;
pub mod thread;
pub mod thread_laws;
pub mod value_laws;
pub mod wire;

pub use attachment::Attachment;
pub use client::{MailClient, Message, SendOptions, REDACTED_SUBJECT};
pub use crypto::SealedBody;
pub use digest::NodeId;
pub use envelope::{message_id, Envelope, EnvelopeBody, MessageId};
pub use error::MailError;
pub use limits::Limits;
pub use mailbox::{Accepted, MailboxStore, SharedMailbox, StoredEnvelope, ABILITY_ACCEPT};
pub use proto::{Grant, MailReply, MailRequest, MAIL_TOPIC};
pub use receipt::{Receipt, ReceiptBody, ReceiptKind};
pub use screening::{ScreeningPolicy, Verdict};
pub use service::MailService;
pub use thread::{group_threads, normalize_subject, thread_root, Conversation};
