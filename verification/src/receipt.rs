//! Receipts: signed acknowledgements that a message was delivered or read.
//!
//! A receipt is signed by the recipient over the message id, so the sender can tell who
//! acknowledged what, and a mailbox that relays receipts cannot make one up.

use crate::digest::{array_of_64, to_hex, NodeId};
use crate::envelope::{parse_node_id, verify_signature, MessageId};
use crate::error::{Format, MailError};
use crate::text::push_decimal;
use crate::wire::{write_text, Wire};
use vstd::prelude::*;
use vstd::slice::slice_to_vec;

verus! {

/// The tag in front of what a receipt's signature is over, so that it is never taken for the
/// signature of an envelope.
pub const RECEIPT_DOMAIN: &'static str = "ce-mail-receipt-v1";

/// What a receipt attests.
#[derive(Debug, Clone, Copy, PartialEq, Eq, Structural)]
pub enum ReceiptKind {
    /// The message reached the recipient's inbox.
    Delivered,
    /// The recipient opened the message.
    Read,
}

impl ReceiptKind {
    /// The number of the kind in what is signed.
    pub open spec fn tag_of(self) -> u8 {
        match self {
            ReceiptKind::Delivered => 1,
            ReceiptKind::Read => 2,
        }
    }

    fn tag(self) -> (r: u8)
        ensures
            r == self.tag_of(),
    {
        match self {
            ReceiptKind::Delivered => 1,
            ReceiptKind::Read => 2,
        }
    }
}

impl DeepView for ReceiptKind {
    type V = ReceiptKind;

    open spec fn deep_view(&self) -> ReceiptKind {
        *self
    }
}

impl Wire for ReceiptKind {
    open spec fn fits(v: ReceiptKind) -> bool {
        true
    }

    open spec fn wire(v: ReceiptKind) -> Seq<u8> {
        match v {
            ReceiptKind::Delivered => crate::wire::le32(0),
            ReceiptKind::Read => crate::wire::le32(1),
        }
    }

    open spec fn parse(b: Seq<u8>) -> Option<(ReceiptKind, Seq<u8>)> {
        match u32::parse(b) {
            Some((n, rest)) => if n == 0 {
                Some((ReceiptKind::Delivered, rest))
            } else if n == 1 {
                Some((ReceiptKind::Read, rest))
            } else {
                None
            },
            None => None,
        }
    }

    proof fn lemma_reads_back(v: ReceiptKind, rest: Seq<u8>) {
        u32::lemma_reads_back(0, rest);
        u32::lemma_reads_back(1, rest);
    }

    proof fn lemma_wrote(b: Seq<u8>) {
        u32::lemma_wrote(b);
    }

    fn put(&self, out: &mut Vec<u8>) {
        match self {
            ReceiptKind::Delivered => 0u32.put(out),
            ReceiptKind::Read => 1u32.put(out),
        }
    }

    fn get(bytes: &[u8]) -> (r: Option<(ReceiptKind, usize)>) {
        match u32::get(bytes) {
            Some((n, used)) => if n == 0 {
                Some((ReceiptKind::Delivered, used))
            } else if n == 1 {
                Some((ReceiptKind::Read, used))
            } else {
                None
            },
            None => None,
        }
    }
}

/// The unsigned contents of a receipt.
#[derive(Debug, PartialEq, Eq)]
pub struct ReceiptBody {
    /// The message that is acknowledged.
    pub message_id: MessageId,
    /// The acknowledging recipient's node id in hex; the signer.
    pub by: String,
    /// What is attested.
    pub kind: ReceiptKind,
    /// When the recipient stamped the receipt, in Unix seconds.
    pub at: u64,
}

/// A signed receipt: the contents and the recipient's signature.
#[derive(Debug, PartialEq, Eq)]
pub struct Receipt {
    pub body: ReceiptBody,
    pub sig: [u8; 64],
}

/// The contents of a receipt as mathematical values.
#[verifier::ext_equal]
pub struct ReceiptBodyModel {
    pub message_id: Seq<char>,
    pub by: Seq<char>,
    pub kind: ReceiptKind,
    pub at: u64,
}

/// A signed receipt as mathematical values.
#[verifier::ext_equal]
pub struct ReceiptModel {
    pub body: ReceiptBodyModel,
    pub sig: Seq<u8>,
}

impl View for ReceiptBody {
    type V = ReceiptBodyModel;

    open spec fn view(&self) -> ReceiptBodyModel {
        ReceiptBodyModel {
            message_id: self.message_id@,
            by: self.by@,
            kind: self.kind,
            at: self.at,
        }
    }
}

impl DeepView for ReceiptBody {
    type V = ReceiptBodyModel;

    open spec fn deep_view(&self) -> ReceiptBodyModel {
        self.view()
    }
}

impl View for Receipt {
    type V = ReceiptModel;

    open spec fn view(&self) -> ReceiptModel {
        ReceiptModel { body: self.body@, sig: self.sig@ }
    }
}

impl DeepView for Receipt {
    type V = ReceiptModel;

    open spec fn deep_view(&self) -> ReceiptModel {
        self.view()
    }
}

impl Clone for ReceiptBody {
    fn clone(&self) -> (r: Self)
        ensures
            r@ == self@,
    {
        ReceiptBody {
            message_id: self.message_id.clone(),
            by: self.by.clone(),
            kind: self.kind,
            at: self.at,
        }
    }
}

impl Clone for Receipt {
    fn clone(&self) -> (r: Self)
        ensures
            r@ == self@,
    {
        Receipt { body: self.body.clone(), sig: self.sig }
    }
}

/// The fields of a receipt's contents in the order in which they are written.
pub type ReceiptFields = (String, (String, (ReceiptKind, u64)));

impl Wire for ReceiptBody {
    open spec fn fits(v: ReceiptBodyModel) -> bool {
        ReceiptFields::fits((v.message_id, (v.by, (v.kind, v.at))))
    }

    open spec fn wire(v: ReceiptBodyModel) -> Seq<u8> {
        ReceiptFields::wire((v.message_id, (v.by, (v.kind, v.at))))
    }

    open spec fn parse(b: Seq<u8>) -> Option<(ReceiptBodyModel, Seq<u8>)> {
        match ReceiptFields::parse(b) {
            Some(((message_id, (by, (kind, at))), rest)) => Some(
                (ReceiptBodyModel { message_id, by, kind, at }, rest),
            ),
            None => None,
        }
    }

    proof fn lemma_reads_back(v: ReceiptBodyModel, rest: Seq<u8>) {
        ReceiptFields::lemma_reads_back((v.message_id, (v.by, (v.kind, v.at))), rest);
    }

    proof fn lemma_wrote(b: Seq<u8>) {
        ReceiptFields::lemma_wrote(b);
    }

    fn put(&self, out: &mut Vec<u8>) {
        self.message_id.put(out);
        self.by.put(out);
        self.kind.put(out);
        self.at.put(out);
        assert(out@ =~= old(out)@ + Self::wire(self@));
    }

    fn get(bytes: &[u8]) -> (r: Option<(ReceiptBody, usize)>) {
        match ReceiptFields::get(bytes) {
            Some(((message_id, (by, (kind, at))), used)) => Some(
                (ReceiptBody { message_id, by, kind, at }, used),
            ),
            None => None,
        }
    }
}

impl Wire for Receipt {
    open spec fn fits(v: ReceiptModel) -> bool {
        ReceiptBody::fits(v.body) && v.sig.len() == 64
    }

    open spec fn wire(v: ReceiptModel) -> Seq<u8> {
        <(ReceiptBody, Vec<u8>)>::wire((v.body, v.sig))
    }

    open spec fn parse(b: Seq<u8>) -> Option<(ReceiptModel, Seq<u8>)> {
        match <(ReceiptBody, Vec<u8>)>::parse(b) {
            Some(((body, sig), rest)) => if sig.len() == 64 {
                Some((ReceiptModel { body, sig }, rest))
            } else {
                None
            },
            None => None,
        }
    }

    proof fn lemma_reads_back(v: ReceiptModel, rest: Seq<u8>) {
        <(ReceiptBody, Vec<u8>)>::lemma_reads_back((v.body, v.sig), rest);
    }

    proof fn lemma_wrote(b: Seq<u8>) {
        <(ReceiptBody, Vec<u8>)>::lemma_wrote(b);
    }

    fn put(&self, out: &mut Vec<u8>) {
        self.body.put(out);
        let sig: Vec<u8> = slice_to_vec(self.sig.as_slice());
        assert(sig.deep_view() =~= self.sig@);
        sig.put(out);
        assert(out@ =~= old(out)@ + Self::wire(self@));
    }

    fn get(bytes: &[u8]) -> (r: Option<(Receipt, usize)>) {
        match <(ReceiptBody, Vec<u8>)>::get(bytes) {
            Some(((body, sig), used)) => {
                assert(sig.deep_view() =~= sig@);
                if sig.len() == 64 {
                    Some((Receipt { body, sig: array_of_64(sig.as_slice()) }, used))
                } else {
                    None
                }
            },
            None => None,
        }
    }
}

/// What the signature of a receipt with the contents `m` is over: the domain tag, the message, the
/// signer, the number of the kind and the time.
pub open spec fn receipt_message(m: ReceiptBodyModel) -> Seq<u8> {
    crate::wire::text_bytes(RECEIPT_DOMAIN@) + <(String, (String, (u8, u64)))>::wire(
        (m.message_id, (m.by, (m.kind.tag_of(), m.at))),
    )
}

/// What the signature of a receipt is over.
pub fn receipt_signing_bytes(b: &ReceiptBody) -> (r: Vec<u8>)
    ensures
        r@ == receipt_message(b@),
        ReceiptBody::fits(b@),
{
    let mut out: Vec<u8> = Vec::new();
    write_text(&mut out, RECEIPT_DOMAIN);
    b.message_id.put(&mut out);
    b.by.put(&mut out);
    b.kind.tag().put(&mut out);
    b.at.put(&mut out);
    assert(out@ =~= receipt_message(b@));
    out
}

/// The key by which equal acknowledgements are recognised: the message, the number of the kind and
/// the signer, with colons between them.
pub open spec fn receipt_key(m: ReceiptBodyModel) -> Seq<char> {
    m.message_id + ":"@ + crate::text::decimal(m.kind.tag_of() as nat) + ":"@ + m.by
}

impl Receipt {
    /// Signs a receipt for `message_id` as the node `recipient`, whose signature `sign` gives.
    pub fn issue<F: Fn(&[u8]) -> [u8; 64]>(
        recipient: &NodeId,
        sign: &F,
        message_id: &str,
        kind: ReceiptKind,
        at: u64,
    ) -> (r: Receipt)
        requires
            crate::envelope::can_sign(*sign),
        ensures
            r@.body == (ReceiptBodyModel {
                message_id: message_id@,
                by: crate::digest::hex_text(recipient@),
                kind,
                at,
            }),
            crate::envelope::sign_says(*sign, receipt_message(r@.body), r@.sig),
            ReceiptBody::fits(r@.body),
    {
        let body = ReceiptBody {
            message_id: message_id.to_owned(),
            by: to_hex(recipient.as_slice()),
            kind,
            at,
        };
        let message = receipt_signing_bytes(&body);
        let sig: [u8; 64] = sign(message.as_slice());
        Receipt { body, sig }
    }

    /// Checks the recipient's signature with `check`: an error if `by` is no node id, or if the
    /// signature is not the recipient's over these contents.
    pub fn verify<F: Fn(&NodeId, &[u8], &[u8; 64]) -> bool>(&self, check: &F) -> (r: Result<
        (),
        MailError,
    >)
        requires
            crate::envelope::can_check(*check),
        ensures
            exists|outcome: Result<(), crate::error::SignatureError>| #[trigger]
                crate::envelope::verified_as(
                    *check,
                    self@.body.by,
                    receipt_message(self@.body),
                    self@.sig,
                    outcome,
                ) && r == (match outcome {
                    Ok(_) => Ok::<(), MailError>(()),
                    Err(e) => Err(MailError::Receipt(e)),
                }),
    {
        let message = receipt_signing_bytes(&self.body);
        let outcome = verify_signature(
            check,
            self.body.by.as_str(),
            message.as_slice(),
            &self.sig,
        );
        assert(crate::envelope::verified_as(
            *check,
            self@.body.by,
            receipt_message(self@.body),
            self@.sig,
            outcome,
        ));
        match outcome {
            Ok(_) => Ok(()),
            Err(e) => Err(MailError::Receipt(e)),
        }
    }

    /// The key by which equal acknowledgements are recognised.
    pub fn dedup_key(&self) -> (r: String)
        ensures
            r@ == receipt_key(self@.body),
    {
        let mut out: String = self.body.message_id.clone();
        out.append(":");
        push_decimal(&mut out, self.body.kind.tag() as usize);
        out.append(":");
        out.append(self.body.by.as_str());
        out
    }

    /// The acknowledging recipient.
    pub fn by_node(&self) -> (r: Result<NodeId, MailError>)
        ensures
            match crate::envelope::node_id_of(self@.body.by) {
                Ok(id) => r is Ok && r->Ok_0@ == id,
                Err(e) => r == Err::<NodeId, MailError>(MailError::NodeId(e)),
            },
    {
        parse_node_id(self.body.by.as_str())
    }

    /// The bytes of the receipt.
    pub fn encode(&self) -> (r: Vec<u8>)
        ensures
            r@ == Receipt::wire(self@),
            Receipt::fits(self@),
    {
        let mut out: Vec<u8> = Vec::new();
        self.put(&mut out);
        assert(out@ =~= Receipt::wire(self@));
        out
    }

    /// Reads a receipt from its bytes, without checking its signature.
    pub fn decode(bytes: &[u8]) -> (r: Result<Receipt, MailError>)
        ensures
            match Receipt::parse(bytes@) {
                Some((m, _)) => r is Ok && r->Ok_0@ == m,
                None => r == Err::<Receipt, MailError>(MailError::Malformed(Format::Receipt)),
            },
    {
        match Receipt::get(bytes) {
            Some((m, _)) => Ok(m),
            None => Err(MailError::Malformed(Format::Receipt)),
        }
    }
}

/// A receipt reads back from its bytes as itself.
pub proof fn lemma_receipt_round_trip(m: ReceiptModel)
    requires
        Receipt::fits(m),
    ensures
        Receipt::parse(Receipt::wire(m)) == Some((m, Seq::<u8>::empty())),
{
    let none = Seq::<u8>::empty();
    assert(Receipt::wire(m) + none =~= Receipt::wire(m));
    Receipt::lemma_reads_back(m, none);
}

/// What a receipt's signature is over determines its contents.
pub proof fn lemma_receipt_message_injective(a: ReceiptBodyModel, b: ReceiptBodyModel)
    requires
        ReceiptBody::fits(a),
        ReceiptBody::fits(b),
        receipt_message(a) == receipt_message(b),
    ensures
        a == b,
{
    let tag = crate::wire::text_bytes(RECEIPT_DOMAIN@);
    let none = Seq::<u8>::empty();
    let x = (a.message_id, (a.by, (a.kind.tag_of(), a.at)));
    let y = (b.message_id, (b.by, (b.kind.tag_of(), b.at)));
    assert(receipt_message(a).skip(tag.len() as int) =~= <(String, (String, (u8, u64)))>::wire(x)
        + none);
    assert(receipt_message(b).skip(tag.len() as int) =~= <(String, (String, (u8, u64)))>::wire(y)
        + none);
    <(String, (String, (u8, u64)))>::lemma_reads_back(x, none);
    <(String, (String, (u8, u64)))>::lemma_reads_back(y, none);
}

/// No signature is over both an envelope and a receipt.
pub proof fn lemma_domains_apart(e: crate::envelope::BodyModel, m: ReceiptBodyModel)
    ensures
        crate::envelope::signing_bytes(e) != receipt_message(m),
{
    let a = crate::envelope::ENVELOPE_DOMAIN@;
    let b = RECEIPT_DOMAIN@;
    reveal_strlit("ce-mail-envelope-v1");
    reveal_strlit("ce-mail-receipt-v1");
    assert(vstd::utf8::is_ascii_chars(a));
    assert(vstd::utf8::is_ascii_chars(b));
    vstd::utf8::is_ascii_chars_encode_utf8(a);
    vstd::utf8::is_ascii_chars_encode_utf8(b);
    let x = crate::envelope::signing_bytes(e);
    let y = receipt_message(m);
    crate::wire::lemma_le64_len(19);
    crate::wire::lemma_le64_len(18);
    u64::lemma_reads_back(19, x.skip(8));
    u64::lemma_reads_back(18, y.skip(8));
    assert(x =~= crate::wire::le64(19) + x.skip(8));
    assert(y =~= crate::wire::le64(18) + y.skip(8));
}

/// A receipt that was issued verifies, wherever the check accepts what the signer signs.
pub proof fn lemma_issued_verifies<
    S: Fn(&[u8]) -> [u8; 64],
    C: Fn(&NodeId, &[u8], &[u8; 64]) -> bool,
>(
    sign: S,
    check: C,
    recipient: Seq<u8>,
    m: ReceiptModel,
    outcome: Result<(), crate::error::SignatureError>,
)
    requires
        recipient.len() == 32,
        crate::envelope::accepts_signer(sign, check, recipient),
        m.body.by == crate::digest::hex_text(recipient),
        crate::envelope::sign_says(sign, receipt_message(m.body), m.sig),
        crate::envelope::verified_as(check, m.body.by, receipt_message(m.body), m.sig, outcome),
    ensures
        outcome == Ok::<(), crate::error::SignatureError>(()),
{
    crate::envelope::lemma_node_id_round_trip(recipient);
}

/// A receipt that was tampered with is refused: where the check accepts a signature over the receipt
/// that it was made for alone, the same signature on any other contents is refused.
pub proof fn lemma_tampered_is_refused<C: Fn(&NodeId, &[u8], &[u8; 64]) -> bool>(
    check: C,
    m: ReceiptModel,
    changed: ReceiptBodyModel,
    outcome: Result<(), crate::error::SignatureError>,
)
    requires
        ReceiptBody::fits(m.body),
        ReceiptBody::fits(changed),
        crate::envelope::signs_only(check, m.sig, receipt_message(m.body)),
        changed != m.body,
        crate::envelope::verified_as(check, changed.by, receipt_message(changed), m.sig, outcome),
    ensures
        match crate::envelope::node_id_of(changed.by) {
            Ok(_) => outcome == Err::<(), crate::error::SignatureError>(
                crate::error::SignatureError::Forged,
            ),
            Err(x) => outcome == Err::<(), crate::error::SignatureError>(
                crate::error::SignatureError::Signer(x),
            ),
        },
{
    if receipt_message(changed) == receipt_message(m.body) {
        lemma_receipt_message_injective(changed, m.body);
    }
}

/// Two receipts for messages whose ids hold no colon have the same key exactly when they
/// acknowledge the same message in the same way by the same signer.
pub proof fn lemma_key_identifies(a: ReceiptBodyModel, b: ReceiptBodyModel)
    requires
        !a.message_id.contains(':'),
        !b.message_id.contains(':'),
    ensures
        receipt_key(a) == receipt_key(b) <==> (a.message_id == b.message_id && a.kind == b.kind
            && a.by == b.by),
{
    reveal_strlit(":");
    let x = receipt_key(a);
    let y = receipt_key(b);
    let n = a.message_id.len() as int;
    let k = b.message_id.len() as int;
    if x == y {
        assert(x[n] == ':');
        assert(y[k] == ':');
        if n < k {
            assert(b.message_id[n] == y[n]);
            assert(false);
        }
        if k < n {
            assert(a.message_id[k] == x[k]);
            assert(false);
        }
        assert(a.message_id =~= x.take(n));
        assert(b.message_id =~= y.take(n));
        assert(x[n + 1] == crate::text::digit_char(a.kind.tag_of() as nat));
        assert(y[n + 1] == crate::text::digit_char(b.kind.tag_of() as nat));
        assert(a.by =~= x.skip(n + 3));
        assert(b.by =~= y.skip(n + 3));
    }
}

/// Two receipts by signers whose names hold no colon have the same key exactly when they acknowledge
/// the same message in the same way by the same signer.
pub proof fn lemma_key_identifies_by_signer(a: ReceiptBodyModel, b: ReceiptBodyModel)
    requires
        !a.by.contains(':'),
        !b.by.contains(':'),
    ensures
        receipt_key(a) == receipt_key(b) <==> (a.message_id == b.message_id && a.kind == b.kind
            && a.by == b.by),
{
    reveal_strlit(":");
    let x = receipt_key(a);
    let y = receipt_key(b);
    let n: int = a.message_id.len() + 3int;
    let k: int = b.message_id.len() + 3int;
    if x == y {
        assert(x.skip(n) =~= a.by);
        assert(y.skip(k) =~= b.by);
        assert(x[n - 1] == ':');
        assert(y[k - 1] == ':');
        if n < k {
            assert(x.skip(n)[k - 1 - n] == ':');
            assert(false);
        }
        if k < n {
            assert(y.skip(k)[n - 1 - k] == ':');
            assert(false);
        }
        assert(a.message_id =~= x.take(n - 3));
        assert(b.message_id =~= y.take(n - 3));
        assert(x[n - 2] == crate::text::digit_char(a.kind.tag_of() as nat));
        assert(y[n - 2] == crate::text::digit_char(b.kind.tag_of() as nat));
    }
}

/// Two receipts whose signers are named by node ids, as in every receipt that verifies, have the same
/// key exactly when they acknowledge the same message in the same way by the same signer.
pub proof fn lemma_key_of_nodes_identifies(a: ReceiptBodyModel, b: ReceiptBodyModel)
    requires
        crate::envelope::node_id_of(a.by) is Ok,
        crate::envelope::node_id_of(b.by) is Ok,
    ensures
        receipt_key(a) == receipt_key(b) <==> (a.message_id == b.message_id && a.kind == b.kind
            && a.by == b.by),
{
    crate::envelope::lemma_node_id_holds_no(a.by, ':');
    crate::envelope::lemma_node_id_holds_no(b.by, ':');
    lemma_key_identifies_by_signer(a, b);
}

} // verus!
