//! What each failure is reported by, said of calls and what they give.

use crate::error::{Asked, Format, MailError, Measured, NodeIdError, SignatureError};
use crate::listing::cursor_text;
use vstd::prelude::*;

verus! {

/// What is said of a name that is no node id.
pub open spec fn name_complaint(e: NodeIdError) -> Seq<char> {
    if e == NodeIdError::NotHex {
        "node id is not valid hex"@
    } else {
        "node id must be 32 bytes (64 hex chars)"@
    }
}

/// What is said of a signature, after what it is on.
pub open spec fn signature_complaint(what: Seq<char>, e: SignatureError) -> Seq<char> {
    match e {
        SignatureError::Signer(why) => name_complaint(why),
        SignatureError::Forged => what,
    }
}

/// A failure of a name or of a signature tells which.
pub proof fn lemma_identity_complaints(
    e: &MailError,
    name: &NodeIdError,
    signature: &SignatureError,
    r: String,
    n: &'static str,
    x: &'static str,
    y: &'static str,
)
    requires
        call_ensures(MailError::message, (e,), r),
        call_ensures(NodeIdError::message, (name,), n),
        call_ensures(SignatureError::envelope_message, (signature,), x),
        call_ensures(SignatureError::receipt_message, (signature,), y),
    ensures
        n@ == name_complaint(*name),
        x@ == signature_complaint(
            "envelope signature does not verify (forged or tampered)"@,
            *signature,
        ),
        y@ == signature_complaint(
            "receipt signature does not verify (forged or tampered)"@,
            *signature,
        ),
        *e matches MailError::NodeId(why) ==> why == *name ==> r@ == n@,
        *e matches MailError::Envelope(why) ==> why == *signature ==> r@ == x@,
        *e matches MailError::Receipt(why) ==> why == *signature ==> r@ == y@,
        *e matches MailError::UnverifiableEnvelope(why) ==> why == *signature ==> r@
            == "refusing to store unverifiable envelope: "@ + x@,
        *e matches MailError::UnverifiableReceipt(why) ==> why == *signature ==> r@
            == "refusing to store unverifiable receipt: "@ + y@,
        e is NotAKey ==> r@ == "node id is not a valid Ed25519 public key"@,
        e is NoRecipient ==> r@ == "envelope has no recipient"@,
        e is NoTargetSender ==> r@ == "receipt has no target sender"@,
        *e matches MailError::NotAuthorized(why) ==> r@
            == "mailbox not authorized to accept mail for recipient: "@ + why@,
{
}

/// What is measured, by its name.
pub open spec fn measured_name(what: Measured, i: Seq<char>) -> Seq<char> {
    match what {
        Measured::Subject => "subject"@,
        Measured::BodyCid => "body_cid"@,
        Measured::InReplyTo => "in_reply_to"@,
        Measured::PostageReceipt => "postage_receipt"@,
        Measured::AttachmentCid(_) => "attachment_cid["@ + i + "]"@,
        Measured::Envelope => "envelope"@,
        Measured::Body => "body"@,
    }
}

/// A failure of a size or of a count tells what it is of, how large it is, and then how large it may
/// be.
pub proof fn lemma_size_complaints(
    e: &MailError,
    r: String,
    index: usize,
    size: usize,
    limit: usize,
    i: String,
    n: String,
    l: String,
)
    requires
        call_ensures(MailError::message, (e,), r),
        call_ensures(cursor_text, (index,), i),
        call_ensures(cursor_text, (size,), n),
        call_ensures(cursor_text, (limit,), l),
    ensures
        *e matches MailError::TooLarge { what, size: s, limit: t } ==> (s == size && t == limit && (
        what matches Measured::AttachmentCid(k) ==> k == index) ==> r@ == measured_name(what, i@)
            + (" too large: "@ + n@ + " > "@ + l@ + " bytes"@)),
        *e matches MailError::AttachmentTooLarge { filename, size: s, limit: t } ==> (s == size && t
            == limit ==> r@ == "attachment "@ + crate::error::quoted(filename@) + (" too large: "@
            + n@ + " > "@ + l@ + " bytes"@)),
        *e matches MailError::TooManyAttachments { count, limit: t } ==> (count == size && t == limit
            ==> r@ == "too many attachments: "@ + n@ + " > "@ + l@),
        *e matches MailError::NoSuchAttachment(k) ==> (k == index ==> r@ == "attachment index "@ + i@
            + " out of range"@),
        *e matches MailError::AttachmentWithoutCid(k) ==> (k == index ==> r@ == "attachment "@ + i@
            + " has no CID"@),
{
}

/// What is malformed, by its name.
pub open spec fn format_name(f: Format) -> Seq<char> {
    match f {
        Format::Attachment => "attachment"@,
        Format::Envelope => "envelope"@,
        Format::SealedBody => "sealed body"@,
        Format::Receipt => "receipt"@,
        Format::MailRequest => "mail request"@,
        Format::MailReply => "mail reply"@,
        Format::MailboxStore => "mailbox store"@,
    }
}

/// A failure to read or to open tells what could not be.
pub proof fn lemma_reading_complaints(e: &MailError, r: String, f: &Format, name: &'static str)
    requires
        call_ensures(MailError::message, (e,), r),
        call_ensures(Format::name, (f,), name),
    ensures
        name@ == format_name(*f),
        *e matches MailError::Malformed(what) ==> r@ == "malformed "@ + format_name(what),
        e is MalformedEphemeralKey ==> r@ == "sealed body has malformed ephemeral key"@,
        e is MalformedNonce ==> r@ == "sealed body has malformed nonce"@,
        e is SealFailed ==> r@ == "AEAD seal failed"@,
        e is OpenFailed ==> r@ == "AEAD open failed: wrong recipient or tampered ciphertext"@,
{
}

/// What was asked, by its name.
pub open spec fn asked_name(a: Asked) -> Seq<char> {
    match a {
        Asked::Deliver => "Deliver"@,
        Asked::Drain => "Drain"@,
        Asked::DrainPage => "DrainPage"@,
        Asked::Ack => "Ack"@,
        Asked::PutReceipt => "PutReceipt"@,
        Asked::CollectReceipts => "CollectReceipts"@,
    }
}

/// What was refused, in words.
pub open spec fn refused_name(a: Asked) -> Seq<char> {
    match a {
        Asked::Deliver => "delivery"@,
        Asked::Drain => "drain"@,
        Asked::DrainPage => "drain page"@,
        Asked::Ack => "ack"@,
        Asked::PutReceipt => "receipt"@,
        Asked::CollectReceipts => "collect"@,
    }
}

/// A refusal tells what was refused and the reason that came back, and a reply to something else tells
/// what was asked.
pub proof fn lemma_reply_complaints(
    e: &MailError,
    r: String,
    a: &Asked,
    name: &'static str,
    refused: &'static str,
)
    requires
        call_ensures(MailError::message, (e,), r),
        call_ensures(Asked::name, (a,), name),
        call_ensures(Asked::refused, (a,), refused),
    ensures
        name@ == asked_name(*a),
        refused@ == refused_name(*a),
        *e matches MailError::Rejected { asked, message } ==> r@ == refused_name(asked)
            + " rejected: "@ + message@,
        *e matches MailError::UnexpectedReply(asked) ==> r@ == "unexpected reply to "@ + asked_name(
            asked,
        ),
{
}

} // verus!
