use ce_mail::error::{Asked, Format, MailError, Measured, NodeIdError, SignatureError};

#[test]
fn every_failure_has_its_message() {
    let forged = SignatureError::Forged;
    let signer = SignatureError::Signer(NodeIdError::WrongLength);
    let expected = [
        (MailError::NodeId(NodeIdError::NotHex), "node id is not valid hex"),
        (MailError::NodeId(NodeIdError::WrongLength), "node id must be 32 bytes (64 hex chars)"),
        (MailError::NotAKey, "node id is not a valid Ed25519 public key"),
        (
            MailError::Envelope(forged),
            "envelope signature does not verify (forged or tampered)",
        ),
        (MailError::Envelope(signer), "node id must be 32 bytes (64 hex chars)"),
        (MailError::Receipt(forged), "receipt signature does not verify (forged or tampered)"),
        (
            MailError::UnverifiableEnvelope(signer),
            "refusing to store unverifiable envelope: node id must be 32 bytes (64 hex chars)",
        ),
        (
            MailError::UnverifiableReceipt(forged),
            "refusing to store unverifiable receipt: \
             receipt signature does not verify (forged or tampered)",
        ),
        (MailError::NoRecipient, "envelope has no recipient"),
        (MailError::NoTargetSender, "receipt has no target sender"),
        (
            MailError::NotAuthorized("why".into()),
            "mailbox not authorized to accept mail for recipient: why",
        ),
        (
            MailError::TooLarge { what: Measured::AttachmentCid(12), size: 300, limit: 256 },
            "attachment_cid[12] too large: 300 > 256 bytes",
        ),
        (
            MailError::AttachmentTooLarge { filename: "a\nb".into(), size: 10, limit: 9 },
            "attachment \"a\\nb\" too large: 10 > 9 bytes",
        ),
        (
            MailError::TooManyAttachments { count: 65, limit: 64 },
            "too many attachments: 65 > 64",
        ),
        (MailError::Malformed(Format::MailboxStore), "malformed mailbox store"),
        (MailError::Malformed(Format::SealedBody), "malformed sealed body"),
        (MailError::MalformedEphemeralKey, "sealed body has malformed ephemeral key"),
        (MailError::MalformedNonce, "sealed body has malformed nonce"),
        (MailError::SealFailed, "AEAD seal failed"),
        (
            MailError::OpenFailed,
            "AEAD open failed: wrong recipient or tampered ciphertext",
        ),
        (MailError::NoSuchAttachment(9), "attachment index 9 out of range"),
        (MailError::AttachmentWithoutCid(0), "attachment 0 has no CID"),
        (
            MailError::Rejected { asked: Asked::PutReceipt, message: "m".into() },
            "receipt rejected: m",
        ),
        (MailError::UnexpectedReply(Asked::DrainPage), "unexpected reply to DrainPage"),
    ];
    for (error, text) in expected {
        assert_eq!(error.message(), text);
    }
}
