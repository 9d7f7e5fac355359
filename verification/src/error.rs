//! Everything that can go wrong, with the message each failure is reported by.

use crate::text::push_decimal;
use vstd::prelude::*;

verus! {

/// Why a text is no node id.
#[derive(Debug, Clone, Copy, PartialEq, Eq, Structural)]
pub enum NodeIdError {
    /// It is not an even number of hex digits.
    NotHex,
    /// It is hex, but not of 32 bytes.
    WrongLength,
}

/// Why a signed value is not accepted as signed by who it names.
#[derive(Debug, Clone, Copy, PartialEq, Eq, Structural)]
pub enum SignatureError {
    /// The named signer is no node id.
    Signer(NodeIdError),
    /// The signature is not the signer's over these contents.
    Forged,
}

/// What a size limit is put on.
#[derive(Debug, Clone, Copy, PartialEq, Eq, Structural)]
pub enum Measured {
    Subject,
    BodyCid,
    InReplyTo,
    PostageReceipt,
    /// One attachment CID, by its position.
    AttachmentCid(usize),
    Envelope,
    Body,
}

/// What bytes were expected to hold.
#[derive(Debug, Clone, Copy, PartialEq, Eq, Structural)]
pub enum Format {
    Attachment,
    Envelope,
    SealedBody,
    Receipt,
    MailRequest,
    MailReply,
    MailboxStore,
}

/// What a client asked a mailbox for.
#[derive(Debug, Clone, Copy, PartialEq, Eq, Structural)]
pub enum Asked {
    Deliver,
    Drain,
    DrainPage,
    Ack,
    PutReceipt,
    CollectReceipts,
}

/// A failure of the library.
#[derive(Debug, PartialEq, Eq)]
pub enum MailError {
    /// A text is no node id.
    NodeId(NodeIdError),
    /// A node id is not a point of the curve.
    NotAKey,
    /// An envelope's signature does not hold.
    Envelope(SignatureError),
    /// A receipt's signature does not hold.
    Receipt(SignatureError),
    /// A mailbox does not store an envelope whose signature does not hold.
    UnverifiableEnvelope(SignatureError),
    /// A mailbox does not store a receipt whose signature does not hold.
    UnverifiableReceipt(SignatureError),
    /// An envelope is addressed to nobody.
    NoRecipient,
    /// A receipt is destined for nobody.
    NoTargetSender,
    /// The capability chain does not let the mailbox accept mail for the recipient.
    NotAuthorized(String),
    /// Something is larger than its limit.
    TooLarge { what: Measured, size: usize, limit: usize },
    /// An attachment is larger than its limit.
    AttachmentTooLarge { filename: String, size: usize, limit: usize },
    /// There are more attachments than allowed.
    TooManyAttachments { count: usize, limit: usize },
    /// Bytes do not hold what they should.
    Malformed(Format),
    /// The ephemeral key of a sealed body is not of 32 bytes.
    MalformedEphemeralKey,
    /// The nonce of a sealed body is not of 12 bytes.
    MalformedNonce,
    /// The cipher refused to seal.
    SealFailed,
    /// The ciphertext was not sealed to this recipient, or was changed.
    OpenFailed,
    /// There is no attachment with this index.
    NoSuchAttachment(usize),
    /// The attachment with this index has no CID.
    AttachmentWithoutCid(usize),
    /// The mailbox refused, and said why.
    Rejected { asked: Asked, message: String },
    /// The mailbox answered another question.
    UnexpectedReply(Asked),
}

impl NodeIdError {
    /// The message.
    pub open spec fn text(self) -> Seq<char> {
        match self {
            NodeIdError::NotHex => "node id is not valid hex"@,
            NodeIdError::WrongLength => "node id must be 32 bytes (64 hex chars)"@,
        }
    }

    /// The message.
    pub fn message(&self) -> (r: &'static str)
        ensures
            r@ == self.text(),
    {
        match self {
            NodeIdError::NotHex => "node id is not valid hex",
            NodeIdError::WrongLength => "node id must be 32 bytes (64 hex chars)",
        }
    }
}

impl SignatureError {
    /// The message about an envelope.
    pub open spec fn envelope_text(self) -> Seq<char> {
        match self {
            SignatureError::Signer(e) => e.text(),
            SignatureError::Forged => "envelope signature does not verify (forged or tampered)"@,
        }
    }

    /// The message about an envelope.
    pub fn envelope_message(&self) -> (r: &'static str)
        ensures
            r@ == self.envelope_text(),
    {
        match self {
            SignatureError::Signer(e) => e.message(),
            SignatureError::Forged => "envelope signature does not verify (forged or tampered)",
        }
    }

    /// The message about a receipt.
    pub open spec fn receipt_text(self) -> Seq<char> {
        match self {
            SignatureError::Signer(e) => e.text(),
            SignatureError::Forged => "receipt signature does not verify (forged or tampered)"@,
        }
    }

    /// The message about a receipt.
    pub fn receipt_message(&self) -> (r: &'static str)
        ensures
            r@ == self.receipt_text(),
    {
        match self {
            SignatureError::Signer(e) => e.message(),
            SignatureError::Forged => "receipt signature does not verify (forged or tampered)",
        }
    }
}

impl Measured {
    /// What is measured, in words.
    pub open spec fn text(self) -> Seq<char> {
        match self {
            Measured::Subject => "subject"@,
            Measured::BodyCid => "body_cid"@,
            Measured::InReplyTo => "in_reply_to"@,
            Measured::PostageReceipt => "postage_receipt"@,
            Measured::AttachmentCid(i) => "attachment_cid["@ + crate::text::decimal(i as nat)
                + "]"@,
            Measured::Envelope => "envelope"@,
            Measured::Body => "body"@,
        }
    }

    fn push_to(&self, out: &mut String)
        ensures
            final(out)@ == old(out)@ + self.text(),
    {
        match self {
            Measured::Subject => out.append("subject"),
            Measured::BodyCid => out.append("body_cid"),
            Measured::InReplyTo => out.append("in_reply_to"),
            Measured::PostageReceipt => out.append("postage_receipt"),
            Measured::AttachmentCid(i) => {
                out.append("attachment_cid[");
                push_decimal(out, *i);
                out.append("]");
            },
            Measured::Envelope => out.append("envelope"),
            Measured::Body => out.append("body"),
        }
        assert(out@ =~= old(out)@ + self.text());
    }
}

impl Format {
    /// The format's name.
    pub open spec fn text(self) -> Seq<char> {
        match self {
            Format::Attachment => "attachment"@,
            Format::Envelope => "envelope"@,
            Format::SealedBody => "sealed body"@,
            Format::Receipt => "receipt"@,
            Format::MailRequest => "mail request"@,
            Format::MailReply => "mail reply"@,
            Format::MailboxStore => "mailbox store"@,
        }
    }

    /// The format's name.
    pub fn name(&self) -> (r: &'static str)
        ensures
            r@ == self.text(),
    {
        match self {
            Format::Attachment => "attachment",
            Format::Envelope => "envelope",
            Format::SealedBody => "sealed body",
            Format::Receipt => "receipt",
            Format::MailRequest => "mail request",
            Format::MailReply => "mail reply",
            Format::MailboxStore => "mailbox store",
        }
    }
}

impl Asked {
    /// The name of the request.
    pub open spec fn text(self) -> Seq<char> {
        match self {
            Asked::Deliver => "Deliver"@,
            Asked::Drain => "Drain"@,
            Asked::DrainPage => "DrainPage"@,
            Asked::Ack => "Ack"@,
            Asked::PutReceipt => "PutReceipt"@,
            Asked::CollectReceipts => "CollectReceipts"@,
        }
    }

    /// The name of the request.
    pub fn name(&self) -> (r: &'static str)
        ensures
            r@ == self.text(),
    {
        match self {
            Asked::Deliver => "Deliver",
            Asked::Drain => "Drain",
            Asked::DrainPage => "DrainPage",
            Asked::Ack => "Ack",
            Asked::PutReceipt => "PutReceipt",
            Asked::CollectReceipts => "CollectReceipts",
        }
    }

    /// What was refused, in words.
    pub open spec fn refusal(self) -> Seq<char> {
        match self {
            Asked::Deliver => "delivery"@,
            Asked::Drain => "drain"@,
            Asked::DrainPage => "drain page"@,
            Asked::Ack => "ack"@,
            Asked::PutReceipt => "receipt"@,
            Asked::CollectReceipts => "collect"@,
        }
    }

    /// What was refused, in words.
    pub fn refused(&self) -> (r: &'static str)
        ensures
            r@ == self.refusal(),
    {
        match self {
            Asked::Deliver => "delivery",
            Asked::Drain => "drain",
            Asked::DrainPage => "drain page",
            Asked::Ack => "ack",
            Asked::PutReceipt => "receipt",
            Asked::CollectReceipts => "collect",
        }
    }
}

/// What the `Debug` form of the text `s` is: `s` in quotation marks, with the characters escaped
/// that would not be readable there.
pub uninterp spec fn quoted(s: Seq<char>) -> Seq<char>;

/// Formats `s` with the `Debug` impl of `str` in `std`. Its result is `quoted` of the text.
#[verifier::external_body]
fn quote(s: &str) -> (r: String)
    ensures
        r@ == quoted(s@),
{
    format!("{s:?}")
}

/// `" too large: {size} > {limit} bytes"`, the end of a message about a size.
pub open spec fn over_text(size: nat, limit: nat) -> Seq<char> {
    " too large: "@ + crate::text::decimal(size) + " > "@ + crate::text::decimal(limit) + " bytes"@
}

fn push_over(out: &mut String, size: usize, limit: usize)
    ensures
        final(out)@ == old(out)@ + over_text(size as nat, limit as nat),
{
    out.append(" too large: ");
    push_decimal(out, size);
    out.append(" > ");
    push_decimal(out, limit);
    out.append(" bytes");
    assert(out@ =~= old(out)@ + over_text(size as nat, limit as nat));
}

impl MailError {
    /// The message.
    pub open spec fn text(self) -> Seq<char> {
        match self {
            MailError::NodeId(e) => e.text(),
            MailError::NotAKey => "node id is not a valid Ed25519 public key"@,
            MailError::Envelope(e) => e.envelope_text(),
            MailError::Receipt(e) => e.receipt_text(),
            MailError::UnverifiableEnvelope(e) => "refusing to store unverifiable envelope: "@
                + e.envelope_text(),
            MailError::UnverifiableReceipt(e) => "refusing to store unverifiable receipt: "@
                + e.receipt_text(),
            MailError::NoRecipient => "envelope has no recipient"@,
            MailError::NoTargetSender => "receipt has no target sender"@,
            MailError::NotAuthorized(why) =>
                "mailbox not authorized to accept mail for recipient: "@ + why@,
            MailError::TooLarge { what, size, limit } => what.text() + over_text(
                size as nat,
                limit as nat,
            ),
            MailError::AttachmentTooLarge { filename, size, limit } => "attachment "@ + quoted(
                filename@,
            ) + over_text(size as nat, limit as nat),
            MailError::TooManyAttachments { count, limit } => "too many attachments: "@
                + crate::text::decimal(count as nat) + " > "@ + crate::text::decimal(limit as nat),
            MailError::Malformed(f) => "malformed "@ + f.text(),
            MailError::MalformedEphemeralKey => "sealed body has malformed ephemeral key"@,
            MailError::MalformedNonce => "sealed body has malformed nonce"@,
            MailError::SealFailed => "AEAD seal failed"@,
            MailError::OpenFailed => "AEAD open failed: wrong recipient or tampered ciphertext"@,
            MailError::NoSuchAttachment(i) => "attachment index "@ + crate::text::decimal(i as nat)
                + " out of range"@,
            MailError::AttachmentWithoutCid(i) => "attachment "@ + crate::text::decimal(i as nat)
                + " has no CID"@,
            MailError::Rejected { asked, message } => asked.refusal() + " rejected: "@ + message@,
            MailError::UnexpectedReply(asked) => "unexpected reply to "@ + asked.text(),
        }
    }

    /// The message.
    pub fn message(&self) -> (r: String)
        ensures
            r@ == self.text(),
    {
        let mut out: String = String::new();
        match self {
            MailError::NodeId(e) => out.append(e.message()),
            MailError::NotAKey => out.append("node id is not a valid Ed25519 public key"),
            MailError::Envelope(e) => out.append(e.envelope_message()),
            MailError::Receipt(e) => out.append(e.receipt_message()),
            MailError::UnverifiableEnvelope(e) => {
                out.append("refusing to store unverifiable envelope: ");
                out.append(e.envelope_message());
            },
            MailError::UnverifiableReceipt(e) => {
                out.append("refusing to store unverifiable receipt: ");
                out.append(e.receipt_message());
            },
            MailError::NoRecipient => out.append("envelope has no recipient"),
            MailError::NoTargetSender => out.append("receipt has no target sender"),
            MailError::NotAuthorized(why) => {
                out.append("mailbox not authorized to accept mail for recipient: ");
                out.append(why.as_str());
            },
            MailError::TooLarge { what, size, limit } => {
                what.push_to(&mut out);
                push_over(&mut out, *size, *limit);
            },
            MailError::AttachmentTooLarge { filename, size, limit } => {
                out.append("attachment ");
                out.append(quote(filename.as_str()).as_str());
                push_over(&mut out, *size, *limit);
            },
            MailError::TooManyAttachments { count, limit } => {
                out.append("too many attachments: ");
                push_decimal(&mut out, *count);
                out.append(" > ");
                push_decimal(&mut out, *limit);
            },
            MailError::Malformed(f) => {
                out.append("malformed ");
                out.append(f.name());
            },
            MailError::MalformedEphemeralKey => out.append(
                "sealed body has malformed ephemeral key",
            ),
            MailError::MalformedNonce => out.append("sealed body has malformed nonce"),
            MailError::SealFailed => out.append("AEAD seal failed"),
            MailError::OpenFailed => out.append(
                "AEAD open failed: wrong recipient or tampered ciphertext",
            ),
            MailError::NoSuchAttachment(i) => {
                out.append("attachment index ");
                push_decimal(&mut out, *i);
                out.append(" out of range");
            },
            MailError::AttachmentWithoutCid(i) => {
                out.append("attachment ");
                push_decimal(&mut out, *i);
                out.append(" has no CID");
            },
            MailError::Rejected { asked, message } => {
                out.append(asked.refused());
                out.append(" rejected: ");
                out.append(message.as_str());
            },
            MailError::UnexpectedReply(asked) => {
                out.append("unexpected reply to ");
                out.append(asked.name());
            },
        }
        assert(out@ =~= self.text());
        out
    }
}

} // verus!
