//! What signing, naming and writing down an envelope or a receipt come to, said of calls and what they
//! give.

use crate::digest::NodeId;
use crate::envelope::{
    envelope_signing_bytes, message_id, parse_node_id, Envelope, EnvelopeBody,
};
use crate::error::{Format, MailError, NodeIdError, SignatureError};
use crate::receipt::{receipt_signing_bytes, Receipt, ReceiptBody, ReceiptKind};
use crate::wire::Wire;
use vstd::prelude::*;

verus! {

/// The texts one after the other, each as its length in eight bytes and its UTF-8 bytes.
pub open spec fn texts_in_a_row(texts: Seq<String>) -> Seq<u8>
    decreases texts.len(),
{
    if texts.len() == 0 {
        Seq::empty()
    } else {
        crate::wire::text_bytes(texts[0]@) + texts_in_a_row(texts.skip(1))
    }
}

proof fn lemma_items_are_texts(texts: Seq<String>, views: Seq<Seq<char>>)
    requires
        texts.len() == views.len(),
        forall|i: int| 0 <= i < texts.len() ==> (#[trigger] texts[i])@ == views[i],
    ensures
        crate::wire::items_bytes::<String>(views) == texts_in_a_row(texts),
    decreases texts.len(),
{
    if texts.len() > 0 {
        let t = texts.skip(1);
        assert forall|i: int| 0 <= i < t.len() implies (#[trigger] t[i])@ == views.skip(1)[i] by {
            assert(t[i] == texts[i + 1]);
        }
        lemma_items_are_texts(t, views.skip(1));
        assert(texts[0]@ == views[0]);
    }
}

/// The fields of an envelope as they are written: each text with its length in front, the number of
/// the attachments and their CIDs, and the time in eight bytes.
pub open spec fn fields_in_a_row(b: EnvelopeBody) -> Seq<u8> {
    crate::wire::text_bytes(b.from@) + crate::wire::text_bytes(b.to@) + crate::wire::text_bytes(
        b.subject@,
    ) + crate::wire::text_bytes(b.body_cid@) + crate::wire::le64(b.attachment_cids@.len() as u64)
        + texts_in_a_row(b.attachment_cids@) + crate::wire::text_bytes(b.in_reply_to@)
        + crate::wire::le64(b.sent_at) + crate::wire::text_bytes(b.postage_receipt@)
}

/// Whether two contents say the same in every field.
pub open spec fn same_contents(a: EnvelopeBody, b: EnvelopeBody) -> bool {
    &&& a.from@ == b.from@
    &&& a.to@ == b.to@
    &&& a.subject@ == b.subject@
    &&& a.body_cid@ == b.body_cid@
    &&& a.attachment_cids@.len() == b.attachment_cids@.len()
    &&& forall|i: int|
        0 <= i < a.attachment_cids@.len() ==> (#[trigger] a.attachment_cids@[i])@
            == b.attachment_cids@[i]@
    &&& a.in_reply_to@ == b.in_reply_to@
    &&& a.sent_at == b.sent_at
    &&& a.postage_receipt@ == b.postage_receipt@
}

/// Two contents have the same view exactly if they say the same in every field.
pub proof fn lemma_same_contents(a: EnvelopeBody, b: EnvelopeBody)
    ensures
        a@ == b@ <==> same_contents(a, b),
{
    if a@ == b@ {
        let x = a.attachment_cids.deep_view();
        let y = b.attachment_cids.deep_view();
        assert(a@.attachment_cids == x && b@.attachment_cids == y);
        assert(x.len() == a.attachment_cids@.len() && y.len() == b.attachment_cids@.len());
        assert forall|i: int| 0 <= i < a.attachment_cids@.len() implies (
        #[trigger] a.attachment_cids@[i])@ == b.attachment_cids@[i]@ by {
            assert(x[i] == a.attachment_cids@[i].deep_view());
            assert(y[i] == b.attachment_cids@[i].deep_view());
        }
    }
    if same_contents(a, b) {
        assert(a@.attachment_cids =~= b@.attachment_cids);
        assert(a@ =~= b@);
    }
}

/// What stands for the contents of an envelope in bytes is its fields, in this order.
pub proof fn lemma_bytes_of_fields(b: EnvelopeBody)
    ensures
        EnvelopeBody::wire(b@) == fields_in_a_row(b),
{
    lemma_items_are_texts(b.attachment_cids@, b@.attachment_cids);
    assert(b@.attachment_cids.len() == b.attachment_cids@.len());
    let cids = crate::wire::le64(b.attachment_cids@.len() as u64) + texts_in_a_row(
        b.attachment_cids@,
    );
    assert(<Vec<String>>::wire(b@.attachment_cids) == cids);
    assert(EnvelopeBody::wire(b@) == crate::wire::text_bytes(b.from@) + (crate::wire::text_bytes(
        b.to@,
    ) + (crate::wire::text_bytes(b.subject@) + (crate::wire::text_bytes(b.body_cid@) + (cids + (
    crate::wire::text_bytes(b.in_reply_to@) + (crate::wire::le64(b.sent_at)
        + crate::wire::text_bytes(b.postage_receipt@))))))));
    lemma_in_a_row(
        crate::wire::text_bytes(b.from@),
        crate::wire::text_bytes(b.to@),
        crate::wire::text_bytes(b.subject@),
        crate::wire::text_bytes(b.body_cid@),
        crate::wire::le64(b.attachment_cids@.len() as u64),
        texts_in_a_row(b.attachment_cids@),
        crate::wire::text_bytes(b.in_reply_to@),
        crate::wire::le64(b.sent_at),
        crate::wire::text_bytes(b.postage_receipt@),
    );
}

proof fn lemma_in_a_row(
    a: Seq<u8>,
    b: Seq<u8>,
    c: Seq<u8>,
    d: Seq<u8>,
    e: Seq<u8>,
    f: Seq<u8>,
    g: Seq<u8>,
    h: Seq<u8>,
    i: Seq<u8>,
)
    ensures
        a + (b + (c + (d + (e + f + (g + (h + i)))))) == a + b + c + d + e + f + g + h + i,
{
    assert(a + (b + (c + (d + (e + f + (g + (h + i)))))) =~= a + b + c + d + e + f + g + h + i);
}

/// What an envelope's signature is over is the domain tag and every field, in this order.
pub proof fn lemma_signed_is_tag_and_fields(b: &EnvelopeBody, signed: Vec<u8>)
    requires
        call_ensures(envelope_signing_bytes, (b,), signed),
    ensures
        signed@ == crate::wire::text_bytes("ce-mail-envelope-v1"@) + fields_in_a_row(*b),
{
    lemma_bytes_of_fields(*b);
}

/// No two different contents are signed over the same bytes.
pub proof fn lemma_signed_tells_contents_apart(
    a: &EnvelopeBody,
    b: &EnvelopeBody,
    x: Vec<u8>,
    y: Vec<u8>,
)
    requires
        call_ensures(envelope_signing_bytes, (a,), x),
        call_ensures(envelope_signing_bytes, (b,), y),
    ensures
        x@ == y@ <==> same_contents(*a, *b),
{
    lemma_same_contents(*a, *b);
    if x@ == y@ {
        crate::envelope::lemma_signing_bytes_injective(a@, b@);
    }
}

/// The id of a message is the SHA-256 hash, in hex, of all that its signature is over.
pub proof fn lemma_id_is_hash_of_signed(b: &EnvelopeBody, signed: Vec<u8>, id: String)
    requires
        call_ensures(envelope_signing_bytes, (b,), signed),
        call_ensures(message_id, (b,), id),
    ensures
        id@ == crate::digest::hex_text(crate::digest::sha256(signed@)),
{
    reveal(crate::envelope::message_id_of);
}

/// The name by which messages are told apart everywhere is that hash, whatever the contents.
pub proof fn lemma_id_hashes_every_field(m: crate::envelope::BodyModel)
    ensures
        crate::envelope::message_id_of(m) == crate::digest::hex_text(
            crate::digest::sha256(
                crate::wire::text_bytes("ce-mail-envelope-v1"@) + EnvelopeBody::wire(m),
            ),
        ),
{
    reveal(crate::envelope::message_id_of);
}

/// Different contents have different ids, short of a collision of SHA-256: where two messages that
/// differ in any field have the same id, there are two different inputs with the same hash.
pub proof fn lemma_equal_ids_are_collisions(
    a: &EnvelopeBody,
    b: &EnvelopeBody,
    x: Vec<u8>,
    y: Vec<u8>,
    id_a: String,
    id_b: String,
)
    requires
        call_ensures(envelope_signing_bytes, (a,), x),
        call_ensures(envelope_signing_bytes, (b,), y),
        call_ensures(message_id, (a,), id_a),
        call_ensures(message_id, (b,), id_b),
    ensures
        same_contents(*a, *b) ==> id_a@ == id_b@,
        id_a@ == id_b@ && !same_contents(*a, *b) ==> x@ != y@ && crate::digest::sha256(x@)
            == crate::digest::sha256(y@),
{
    lemma_same_contents(*a, *b);
    lemma_id_is_hash_of_signed(a, x, id_a);
    lemma_id_is_hash_of_signed(b, y, id_b);
    lemma_signed_tells_contents_apart(a, b, x, y);
    crate::digest::lemma_hex_round_trip(crate::digest::sha256(x@));
    crate::digest::lemma_hex_round_trip(crate::digest::sha256(y@));
}

/// An envelope has the id of its contents, which its signature does not enter, and as many
/// attachments as CIDs.
pub proof fn lemma_envelope_has_id_of_contents(e: &Envelope, id: String, other: String, n: usize)
    requires
        call_ensures(Envelope::message_id, (e,), id),
        call_ensures(message_id, (&e.body,), other),
        call_ensures(Envelope::attachment_count, (e,), n),
    ensures
        id@ == other@,
        n == e.body.attachment_cids@.len(),
{
}

/// Sealing keeps every field but the sender, which becomes the signer, and puts a signature that the
/// signer gives over exactly what the envelope's signature is over.
pub proof fn lemma_sealing_keeps_contents<F: Fn(&[u8]) -> [u8; 64]>(
    sender: &NodeId,
    sign: &F,
    body: EnvelopeBody,
    e: Envelope,
    signed: Vec<u8>,
)
    requires
        call_ensures(Envelope::seal::<F>, (sender, sign, body), e),
        call_ensures(envelope_signing_bytes, (&e.body,), signed),
    ensures
        e.body.from@ == crate::digest::hex_text(sender@),
        e.body.to@ == body.to@,
        e.body.subject@ == body.subject@,
        e.body.body_cid@ == body.body_cid@,
        e.body.attachment_cids@.len() == body.attachment_cids@.len(),
        forall|i: int|
            0 <= i < body.attachment_cids@.len() ==> (#[trigger] body.attachment_cids@[i])@
                == e.body.attachment_cids@[i]@,
        e.body.in_reply_to@ == body.in_reply_to@,
        e.body.sent_at == body.sent_at,
        e.body.postage_receipt@ == body.postage_receipt@,
        exists|m: &[u8], s: [u8; 64]|
            m@ == signed@ && s@ == e.sig@ && #[trigger] call_ensures(*sign, (m,), s),
{
    assert(e@.body.attachment_cids == body@.attachment_cids);
    assert forall|i: int| 0 <= i < body.attachment_cids@.len() implies (
    #[trigger] body.attachment_cids@[i])@ == e.body.attachment_cids@[i]@ by {
        assert(e@.body.attachment_cids[i] == body@.attachment_cids[i]);
    }
}

/// Whether the check can only answer `ok` about the signature of this node over the message.
pub open spec fn only_answers<F: Fn(&NodeId, &[u8], &[u8; 64]) -> bool>(
    check: F,
    key: Seq<u8>,
    message: Seq<u8>,
    sig: Seq<u8>,
    ok: bool,
) -> bool {
    forall|k: &NodeId, m: &[u8], s: &[u8; 64], answer: bool|
        k@ == key && m@ == message && s@ == sig && #[trigger] call_ensures(
            check,
            (k, m, s),
            answer,
        ) ==> answer == ok
}

/// Verifying an envelope gives what the check answers about the sender's key, all that is signed, and
/// the signature; a sender that is no node id is an error, and the check is not needed to say so.
pub proof fn lemma_verifying_asks_about_all_that_is_signed<
    F: Fn(&NodeId, &[u8], &[u8; 64]) -> bool,
>(
    e: &Envelope,
    check: &F,
    from: &str,
    signed: Vec<u8>,
    key: Result<NodeId, MailError>,
    r: Result<(), MailError>,
)
    requires
        from@ == e.body.from@,
        call_ensures(parse_node_id, (from,), key),
        call_ensures(envelope_signing_bytes, (&e.body,), signed),
        call_ensures(Envelope::verify::<F>, (e, check), r),
    ensures
        key matches Ok(k) ==> {
            &&& only_answers(*check, k@, signed@, e.sig@, true) ==> r == Ok::<(), MailError>(())
            &&& only_answers(*check, k@, signed@, e.sig@, false) ==> r == Err::<(), MailError>(
                MailError::Envelope(SignatureError::Forged),
            )
            &&& r is Ok || r == Err::<(), MailError>(MailError::Envelope(SignatureError::Forged))
        },
        key matches Err(e) ==> (e matches MailError::NodeId(why) && r == Err::<(), MailError>(
            MailError::Envelope(SignatureError::Signer(why)),
        )),
{
    let outcome = choose|outcome: Result<(), SignatureError>| #[trigger]
        crate::envelope::verified_as(
            *check,
            e@.body.from,
            crate::envelope::signing_bytes(e@.body),
            e@.sig,
            outcome,
        ) && r == (match outcome {
            Ok(_) => Ok::<(), MailError>(()),
            Err(e) => Err(MailError::Envelope(e)),
        });
    if let Err(why) = crate::envelope::node_id_of(from@) {
        assert(r == Err::<(), MailError>(MailError::Envelope(SignatureError::Signer(why))));
    }
}

/// Whether the text is white space and nothing else.
pub open spec fn is_blank(s: Seq<char>) -> bool {
    forall|i: int| 0 <= i < s.len() ==> crate::text::white_space(#[trigger] s[i])
}

/// What is left when the white space around a text that starts and ends with something else is taken
/// away is that text.
pub proof fn lemma_trim_between(front: Seq<char>, s: Seq<char>, back: Seq<char>)
    requires
        is_blank(front),
        is_blank(back),
        s.len() > 0 ==> !crate::text::white_space(s[0]) && !crate::text::white_space(s.last()),
    ensures
        crate::text::trim(front + s + back) == s,
{
    let x = front + s + back;
    let t = crate::text::trim_start(x);
    crate::subject::lemma_trim_start(x);
    let k = x.len() - t.len();
    let n = front.len() as int;
    let u = crate::text::trim_end(t);
    crate::subject::lemma_trim_end(t);
    if s.len() == 0 {
        if t.len() > 0 {
            assert(t[0] == x[k]);
            if k < n {
                assert(x[k] == front[k]);
            } else {
                assert(x[k] == back[k - n]);
            }
        }
        assert(u =~= s);
    } else {
        assert(x[n] == s[0]);
        assert(k <= n);
        assert(t[0] == x[k]);
        if k < n {
            assert(x[k] == front[k]);
        }
        assert(t =~= s + back);
        let m = s.len() as int;
        if u.len() < m {
            assert(crate::text::white_space(t[m - 1]));
            assert(t[m - 1] == s.last());
        }
        if u.len() > m {
            assert(u.last() == t[u.len() - 1]);
            assert(t[u.len() - 1] == back[u.len() - 1 - m]);
        }
        assert(u =~= s);
    }
}

/// A text can be taken apart into white space, what is left of it when trimmed, and white space.
pub proof fn lemma_trim_parts(s: Seq<char>) -> (parts: (Seq<char>, Seq<char>))
    ensures
        is_blank(parts.0),
        is_blank(parts.1),
        s == parts.0 + crate::text::trim(s) + parts.1,
        crate::text::trim(s).len() > 0 ==> !crate::text::white_space(crate::text::trim(s)[0])
            && !crate::text::white_space(crate::text::trim(s).last()),
{
    let t = crate::text::trim_start(s);
    crate::subject::lemma_trim_start(s);
    crate::subject::lemma_trim_end(t);
    let u = crate::text::trim_end(t);
    let front = s.take(s.len() - t.len());
    let back = t.skip(u.len() as int);
    assert(t =~= u + back);
    assert(s =~= front + t);
    assert(s =~= front + u + back);
    assert forall|i: int| 0 <= i < front.len() implies crate::text::white_space(
        #[trigger] front[i],
    ) by {
        assert(front[i] == s[i]);
    }
    assert forall|i: int| 0 <= i < back.len() implies crate::text::white_space(
        #[trigger] back[i],
    ) by {
        assert(back[i] == t[u.len() + i]);
    }
    if u.len() > 0 {
        assert(u[0] == t[0]);
    }
    (front, back)
}

/// Whether the text is hex digits of either case.
pub open spec fn all_hex(s: Seq<char>) -> bool {
    forall|i: int|
        0 <= i < s.len() ==> '0' <= #[trigger] s[i] <= '9' || 'a' <= s[i] <= 'f' || 'A' <= s[i]
            <= 'F'
}

proof fn lemma_hex_of_bytes(s: Seq<char>)
    requires
        all_hex(s),
        s.len() % 2 == 0,
    ensures
        crate::digest::hex_text(crate::digest::hex_bytes(s)) == crate::text::lower(s),
{
    let b = crate::digest::hex_bytes(s);
    let h = crate::digest::hex_text(b);
    assert forall|i: int| 0 <= i < s.len() implies h[i] == crate::text::lower_char(s[i]) by {
        let j = i / 2;
        let hi = crate::digest::hex_value(s[2 * j]);
        let lo = crate::digest::hex_value(s[2 * j + 1]);
        assert(0 <= 2 * j < s.len() && 0 <= 2 * j + 1 < s.len());
        assert(0 <= hi < 16 && 0 <= lo < 16);
        assert(b[j] == hi * 16 + lo);
        assert(b[j] as int / 16 == hi && b[j] as int % 16 == lo);
        if i % 2 == 0 {
            assert(i == 2 * j);
        } else {
            assert(i == 2 * j + 1);
        }
    }
    assert(h =~= crate::text::lower(s));
}

/// A text is the node id whose hex form it is, in either case, with white space around it, and no
/// other text is one: what is not an even number of hex digits is no hex, and hex of another length is
/// of the wrong length.
pub proof fn lemma_node_ids_are_hex(
    front: Seq<char>,
    digits: Seq<char>,
    back: Seq<char>,
    s: &str,
    r: Result<NodeId, MailError>,
)
    requires
        s@ == front + digits + back,
        is_blank(front),
        is_blank(back),
        digits.len() > 0 ==> !crate::text::white_space(digits[0]) && !crate::text::white_space(
            digits.last(),
        ),
        call_ensures(parse_node_id, (s,), r),
    ensures
        r is Ok <==> all_hex(digits) && digits.len() == 64,
        r matches Ok(id) ==> crate::digest::hex_text(id@) == crate::text::lower(digits),
        r == Err::<NodeId, MailError>(MailError::NodeId(NodeIdError::WrongLength)) <==> all_hex(
            digits,
        ) && digits.len() % 2 == 0 && digits.len() != 64,
        r == Err::<NodeId, MailError>(MailError::NodeId(NodeIdError::NotHex)) <==> !all_hex(digits)
            || digits.len() % 2 != 0,
{
    lemma_trim_between(front, digits, back);
    if all_hex(digits) {
        assert forall|i: int| 0 <= i < digits.len() implies crate::digest::is_hex_digit(
            #[trigger] digits[i],
        ) by {}
        if digits.len() % 2 == 0 {
            lemma_hex_of_bytes(digits);
        }
    } else {
        let i = choose|i: int|
            0 <= i < digits.len() && !('0' <= #[trigger] digits[i] <= '9' || 'a' <= digits[i]
                <= 'f' || 'A' <= digits[i] <= 'F');
        assert(!crate::digest::is_hex_digit(digits[i]));
    }
}

/// A node's id in hex reads back as the node's id.
pub proof fn lemma_node_id_reads_back(id: NodeId, s: &str, r: Result<NodeId, MailError>)
    requires
        s@ == crate::digest::hex_text(id@),
        call_ensures(parse_node_id, (s,), r),
    ensures
        r matches Ok(back) && back@ == id@,
{
    crate::envelope::lemma_node_id_round_trip(id@);
}

/// An envelope is written as its fields, in the order in which they are signed, and its signature with
/// its length in front.
pub proof fn lemma_envelope_bytes_are_fields_and_signature(e: &Envelope, b: Vec<u8>, n: usize)
    requires
        call_ensures(Envelope::encode, (e,), b),
        call_ensures(Envelope::encoded_len, (e,), n),
    ensures
        b@ == fields_in_a_row(e.body) + crate::wire::le64(64) + e.sig@,
        n == b@.len(),
{
    lemma_bytes_of_fields(e.body);
    crate::wire::lemma_bytes_of_bytes(e.sig@);
    assert(b@ =~= fields_in_a_row(e.body) + crate::wire::le64(64) + e.sig@);
    assert(b.len() == b@.len());
}

/// An envelope reads back from its bytes as what was written, whatever follows them, and from nothing
/// less than all of them; and what reads back was written so.
pub proof fn lemma_envelope_reads_back(
    e: &Envelope,
    b: Vec<u8>,
    tried: Result<Vec<u8>, MailError>,
    bytes: &[u8],
    r: Result<Envelope, MailError>,
)
    requires
        call_ensures(Envelope::encode, (e,), b),
        call_ensures(Envelope::try_encode, (e,), tried),
        call_ensures(Envelope::decode, (bytes,), r),
    ensures
        tried matches Ok(t) && t@ == b@,
        b@.is_prefix_of(bytes@) ==> (r matches Ok(back) && same_contents(back.body, e.body)
            && back.sig@ == e.sig@),
        bytes@.is_prefix_of(b@) && bytes@ != b@ ==> r is Err,
        r is Err ==> r == Err::<Envelope, MailError>(MailError::Malformed(Format::Envelope)),
        r matches Ok(back) && same_contents(back.body, e.body) && back.sig@ == e.sig@
            ==> b@.is_prefix_of(bytes@),
{
    lemma_reads_exactly::<Envelope>(e@, b@, bytes@);
    if let Ok(back) = r {
        lemma_same_contents(back.body, e.body);
        if same_contents(back.body, e.body) && back.sig@ == e.sig@ {
            assert(back@ =~= e@);
        }
    }
}

/// A value is read back exactly where its bytes stand in front.
pub proof fn lemma_reads_exactly<T: Wire>(v: T::V, b: Seq<u8>, bytes: Seq<u8>)
    requires
        T::fits(v),
        b == T::wire(v),
    ensures
        b.is_prefix_of(bytes) <==> (T::parse(bytes) matches Some((x, _)) && x == v),
        bytes.is_prefix_of(b) && bytes != b ==> T::parse(bytes) is None,
{
    if b.is_prefix_of(bytes) {
        let rest = bytes.skip(b.len() as int);
        assert(bytes =~= b + rest);
        T::lemma_reads_back(v, rest);
    }
    T::lemma_wrote(bytes);
    if let Some((x, rest)) = T::parse(bytes) {
        if x == v {
            assert(bytes.subrange(0, b.len() as int) =~= b);
        }
        if bytes.is_prefix_of(b) && bytes != b {
            let more = b.skip(bytes.len() as int);
            assert(b =~= bytes + more);
            assert(b =~= T::wire(x) + (rest + more));
            T::lemma_reads_back(x, rest + more);
            let none = Seq::<u8>::empty();
            assert(b =~= T::wire(v) + none);
            T::lemma_reads_back(v, none);
            assert(x == v && rest + more == none);
            assert((rest + more).len() == 0);
            assert(bytes =~= b);
        }
    }
}

/// Whether two receipts say the same in every field.
pub open spec fn same_receipt_contents(a: ReceiptBody, b: ReceiptBody) -> bool {
    &&& a.message_id@ == b.message_id@
    &&& a.by@ == b.by@
    &&& a.kind == b.kind
    &&& a.at == b.at
}

/// What a receipt's signature is over is its domain tag, the message, the signer, one for delivered
/// and two for read, and the time.
pub proof fn lemma_receipt_signed_is_tag_and_fields(b: &ReceiptBody, signed: Vec<u8>)
    requires
        call_ensures(receipt_signing_bytes, (b,), signed),
    ensures
        signed@ == crate::wire::text_bytes("ce-mail-receipt-v1"@) + crate::wire::text_bytes(
            b.message_id@,
        ) + crate::wire::text_bytes(b.by@) + seq![
            if b.kind == ReceiptKind::Delivered {
                1u8
            } else {
                2u8
            },
        ] + crate::wire::le64(b.at),
{
    assert(signed@ =~= crate::wire::text_bytes("ce-mail-receipt-v1"@) + crate::wire::text_bytes(
        b.message_id@,
    ) + crate::wire::text_bytes(b.by@) + seq![
        if b.kind == ReceiptKind::Delivered {
            1u8
        } else {
            2u8
        },
    ] + crate::wire::le64(b.at));
}

/// What a receipt's signature is over, and the key by which it is told apart, written out.
pub proof fn lemma_receipt_model(m: Receipt)
    ensures
        crate::receipt::receipt_message(m@.body) == crate::wire::text_bytes("ce-mail-receipt-v1"@)
            + crate::wire::text_bytes(m.body.message_id@) + crate::wire::text_bytes(m.body.by@)
            + seq![
            if m.body.kind == ReceiptKind::Delivered {
                1u8
            } else {
                2u8
            },
        ] + crate::wire::le64(m.body.at),
        crate::receipt::receipt_key(m@.body) == m.body.message_id@ + seq![
            ':',
            if m.body.kind == ReceiptKind::Delivered {
                '1'
            } else {
                '2'
            },
            ':',
        ] + m.body.by@,
{
    reveal_strlit(":");
    let n: nat = if m.body.kind == ReceiptKind::Delivered {
        1
    } else {
        2
    };
    assert(crate::text::decimal(n) =~= seq![crate::text::digit_char(n)]);
    assert(crate::receipt::receipt_message(m@.body) =~= crate::wire::text_bytes(
        "ce-mail-receipt-v1"@,
    ) + crate::wire::text_bytes(m.body.message_id@) + crate::wire::text_bytes(m.body.by@) + seq![
        if m.body.kind == ReceiptKind::Delivered {
            1u8
        } else {
            2u8
        },
    ] + crate::wire::le64(m.body.at));
    assert(crate::receipt::receipt_key(m@.body) =~= m.body.message_id@ + seq![
        ':',
        if m.body.kind == ReceiptKind::Delivered {
            '1'
        } else {
            '2'
        },
        ':',
    ] + m.body.by@);
}

/// No two different receipts are signed over the same bytes, nor a receipt and an envelope.
pub proof fn lemma_receipt_signed_tells_contents_apart(
    a: &ReceiptBody,
    b: &ReceiptBody,
    e: &EnvelopeBody,
    x: Vec<u8>,
    y: Vec<u8>,
    z: Vec<u8>,
)
    requires
        call_ensures(receipt_signing_bytes, (a,), x),
        call_ensures(receipt_signing_bytes, (b,), y),
        call_ensures(envelope_signing_bytes, (e,), z),
    ensures
        x@ == y@ <==> same_receipt_contents(*a, *b),
        x@ != z@,
{
    crate::receipt::lemma_domains_apart(e@, a@);
    if x@ == y@ {
        crate::receipt::lemma_receipt_message_injective(a@, b@);
    }
    if same_receipt_contents(*a, *b) {
        assert(a@ =~= b@);
    }
}

/// Issuing makes a receipt that says what it was asked to, names the signer, and carries a signature
/// that the signer gives over exactly what the receipt's signature is over.
pub proof fn lemma_issuing_says_what_was_asked<F: Fn(&[u8]) -> [u8; 64]>(
    recipient: &NodeId,
    sign: &F,
    id: &str,
    kind: ReceiptKind,
    at: u64,
    r: Receipt,
    signed: Vec<u8>,
)
    requires
        call_ensures(Receipt::issue::<F>, (recipient, sign, id, kind, at), r),
        call_ensures(receipt_signing_bytes, (&r.body,), signed),
    ensures
        r.body.message_id@ == id@,
        r.body.by@ == crate::digest::hex_text(recipient@),
        r.body.kind == kind,
        r.body.at == at,
        exists|m: &[u8], s: [u8; 64]|
            m@ == signed@ && s@ == r.sig@ && #[trigger] call_ensures(*sign, (m,), s),
{
}

/// Verifying a receipt gives what the check answers about the signer's key, all that is signed, and
/// the signature; a signer that is no node id is an error.
pub proof fn lemma_verifying_receipt_asks_about_all_that_is_signed<
    F: Fn(&NodeId, &[u8], &[u8; 64]) -> bool,
>(
    m: &Receipt,
    check: &F,
    by: &str,
    signed: Vec<u8>,
    key: Result<NodeId, MailError>,
    node: Result<NodeId, MailError>,
    r: Result<(), MailError>,
)
    requires
        by@ == m.body.by@,
        call_ensures(parse_node_id, (by,), key),
        call_ensures(Receipt::by_node, (m,), node),
        call_ensures(receipt_signing_bytes, (&m.body,), signed),
        call_ensures(Receipt::verify::<F>, (m, check), r),
    ensures
        key matches Ok(k) ==> {
            &&& node matches Ok(n) && n@ == k@
            &&& only_answers(*check, k@, signed@, m.sig@, true) ==> r == Ok::<(), MailError>(())
            &&& only_answers(*check, k@, signed@, m.sig@, false) ==> r == Err::<(), MailError>(
                MailError::Receipt(SignatureError::Forged),
            )
            &&& r is Ok || r == Err::<(), MailError>(MailError::Receipt(SignatureError::Forged))
        },
        key matches Err(e) ==> (e matches MailError::NodeId(why) && node is Err && r == Err::<
            (),
            MailError,
        >(MailError::Receipt(SignatureError::Signer(why)))),
{
    let outcome = choose|outcome: Result<(), SignatureError>| #[trigger]
        crate::envelope::verified_as(
            *check,
            m@.body.by,
            crate::receipt::receipt_message(m@.body),
            m@.sig,
            outcome,
        ) && r == (match outcome {
            Ok(_) => Ok::<(), MailError>(()),
            Err(e) => Err(MailError::Receipt(e)),
        });
    if let Err(why) = crate::envelope::node_id_of(by@) {
        assert(r == Err::<(), MailError>(MailError::Receipt(SignatureError::Signer(why))));
    }
}

/// Two receipts whose signers are node ids have the same key exactly if they acknowledge the same
/// message in the same way by the same signer. The time does not matter, nor the signature.
pub proof fn lemma_dedup_key_names_acknowledgement(
    a: &Receipt,
    b: &Receipt,
    x: String,
    y: String,
    node_a: Result<NodeId, MailError>,
    node_b: Result<NodeId, MailError>,
)
    requires
        call_ensures(Receipt::dedup_key, (a,), x),
        call_ensures(Receipt::dedup_key, (b,), y),
        call_ensures(Receipt::by_node, (a,), node_a),
        call_ensures(Receipt::by_node, (b,), node_b),
        node_a is Ok,
        node_b is Ok,
    ensures
        x@ == y@ <==> a.body.message_id@ == b.body.message_id@ && a.body.kind == b.body.kind
            && a.body.by@ == b.body.by@,
{
    crate::receipt::lemma_key_of_nodes_identifies(a@.body, b@.body);
}

/// The key of a receipt is the message, a colon, one for delivered and two for read, a colon, and the
/// signer.
pub proof fn lemma_dedup_key_form(a: &Receipt, x: String)
    requires
        call_ensures(Receipt::dedup_key, (a,), x),
    ensures
        x@ == a.body.message_id@ + seq![
            ':',
            if a.body.kind == ReceiptKind::Delivered {
                '1'
            } else {
                '2'
            },
            ':',
        ] + a.body.by@,
{
    lemma_receipt_model(*a);
}

/// A receipt reads back from its bytes as what was written, whatever follows them, and from nothing
/// less than all of them; and what reads back was written so.
pub proof fn lemma_receipt_reads_back(
    m: &Receipt,
    b: Vec<u8>,
    bytes: &[u8],
    r: Result<Receipt, MailError>,
)
    requires
        call_ensures(Receipt::encode, (m,), b),
        call_ensures(Receipt::decode, (bytes,), r),
    ensures
        b@.is_prefix_of(bytes@) ==> (r matches Ok(back) && same_receipt_contents(back.body, m.body)
            && back.sig@ == m.sig@),
        bytes@.is_prefix_of(b@) && bytes@ != b@ ==> r is Err,
        r is Err ==> r == Err::<Receipt, MailError>(MailError::Malformed(Format::Receipt)),
        r matches Ok(back) && same_receipt_contents(back.body, m.body) && back.sig@ == m.sig@
            ==> b@.is_prefix_of(bytes@),
{
    lemma_reads_exactly::<Receipt>(m@, b@, bytes@);
    if let Ok(back) = r {
        if same_receipt_contents(back.body, m.body) && back.sig@ == m.sig@ {
            assert(back@ =~= m@);
        }
    }
}

/// A receipt is written as the message and the signer, each with its length in front, the kind as the
/// number of its variant in four bytes, the time, and the signature with its length in front.
pub proof fn lemma_receipt_bytes_are_fields_and_signature(m: &Receipt, b: Vec<u8>)
    requires
        call_ensures(Receipt::encode, (m,), b),
    ensures
        b@ == crate::wire::text_bytes(m.body.message_id@) + crate::wire::text_bytes(m.body.by@)
            + crate::wire::le32(
            if m.body.kind == ReceiptKind::Delivered {
                0
            } else {
                1
            },
        ) + crate::wire::le64(m.body.at) + crate::wire::le64(64) + m.sig@,
{
    crate::wire::lemma_bytes_of_bytes(m.sig@);
    assert(b@ =~= crate::wire::text_bytes(m.body.message_id@) + crate::wire::text_bytes(m.body.by@)
        + crate::wire::le32(
        if m.body.kind == ReceiptKind::Delivered {
            0
        } else {
            1
        },
    ) + crate::wire::le64(m.body.at) + crate::wire::le64(64) + m.sig@);
}

} // verus!
