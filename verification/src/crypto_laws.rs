//! What sealing and opening come to, said of calls and what they give.

use crate::crypto::{
    decode_sealed, encode_sealed, open, seal, seal_with, try_encode_sealed,
    x25519_public_from_node_id, x25519_secret_from_ed25519, SealedBody,
};
use crate::error::{Format, MailError};
use vstd::prelude::*;

verus! {

/// Whether the secret belongs to the node: its public key is the node's.
pub open spec fn belongs_to(secret: [u8; 32], public: [u8; 32]) -> bool {
    public@ == crate::crypto::x25519_base(secret@)
}

/// What was sealed to a node opens with its secret, as what it was, whatever the key and the nonce
/// that were drawn for it.
pub proof fn lemma_sealed_opens(
    node: &[u8; 32],
    ed_secret: &[u8; 32],
    secret: [u8; 32],
    public: Result<[u8; 32], MailError>,
    seed: &[u8; 32],
    nonce: &[u8; 12],
    plaintext: &[u8],
    sealed: Result<SealedBody, MailError>,
    drawn: Result<SealedBody, MailError>,
    r: Result<Vec<u8>, MailError>,
    again: Result<Vec<u8>, MailError>,
)
    requires
        call_ensures(x25519_secret_from_ed25519, (ed_secret,), secret),
        call_ensures(x25519_public_from_node_id, (node,), public),
        public is Ok && belongs_to(secret, public->Ok_0),
        call_ensures(seal_with, (node, seed, nonce, plaintext), sealed),
        call_ensures(seal, (node, plaintext), drawn),
        sealed is Ok && drawn is Ok,
        call_ensures(open, (ed_secret, &sealed->Ok_0), r),
        call_ensures(open, (ed_secret, &drawn->Ok_0), again),
    ensures
        r matches Ok(p) && p@ == plaintext@,
        again matches Ok(p) && p@ == plaintext@,
{
    assert(crate::crypto::is_key_pair(node@, ed_secret@));
}

/// Sealing fails exactly if the node's id is no key, or else if there is more to seal than the cipher
/// takes.
pub proof fn lemma_sealing_fails_only_if(
    node: &[u8; 32],
    public: Result<[u8; 32], MailError>,
    seed: &[u8; 32],
    nonce: &[u8; 12],
    plaintext: &[u8],
    r: Result<SealedBody, MailError>,
    drawn: Result<SealedBody, MailError>,
)
    requires
        call_ensures(x25519_public_from_node_id, (node,), public),
        call_ensures(seal_with, (node, seed, nonce, plaintext), r),
        call_ensures(seal, (node, plaintext), drawn),
    ensures
        public is Err ==> public == Err::<[u8; 32], MailError>(MailError::NotAKey) && r == Err::<
            SealedBody,
            MailError,
        >(MailError::NotAKey) && drawn == Err::<SealedBody, MailError>(MailError::NotAKey),
        public is Ok && plaintext@.len() <= 274877906816 && plaintext@.len() + 16 <= isize::MAX
            ==> r is Ok && drawn is Ok,
        public is Ok && (plaintext@.len() > 274877906816 || plaintext@.len() + 16 > isize::MAX)
            ==> r == Err::<SealedBody, MailError>(MailError::SealFailed) && drawn == Err::<
            SealedBody,
            MailError,
        >(MailError::SealFailed),
{
    let (s, n) = choose|s: Seq<u8>, n: Seq<u8>|
        s.len() == 32 && n.len() == 12 && crate::crypto::sealed_view(drawn)
            == #[trigger] crate::crypto::sealed_as(node@, s, n, plaintext@);
}

/// Whether `k` is `s` made fit for a scalar: the low three bits and the highest one cleared, the next
/// one set, and all else as it was.
pub open spec fn is_scalar_of(k: Seq<u8>, s: Seq<u8>) -> bool {
    &&& k.len() == s.len()
    &&& k[0] == s[0] & 248
    &&& k[31] == (s[31] & 127) | 64
    &&& forall|i: int| 0 < i < 31 ==> #[trigger] k[i] == s[i]
}

/// A sealed body carries the nonce it is given and the public key of the seed. Its ciphertext is sealed
/// under the hash of the domain, of what the seed and the node have in common, and of that public key,
/// and is sixteen bytes longer than what was sealed.
pub proof fn lemma_sealed_body_is_made_of(
    node: &[u8; 32],
    public: Result<[u8; 32], MailError>,
    seed: &[u8; 32],
    nonce: &[u8; 12],
    plaintext: &[u8],
    r: Result<SealedBody, MailError>,
    k: Seq<u8>,
)
    requires
        call_ensures(x25519_public_from_node_id, (node,), public),
        call_ensures(seal_with, (node, seed, nonce, plaintext), r),
        r is Ok,
        is_scalar_of(k, seed@),
    ensures
        r->Ok_0.nonce@ == nonce@,
        r->Ok_0.epk@ == crate::crypto::x25519_base(k),
        r->Ok_0.epk@.len() == 32,
        r->Ok_0.ciphertext@.len() == plaintext@.len() + 16,
        r->Ok_0.ciphertext@ == crate::crypto::aead_sealed(
            crate::digest::sha256(
                vstd::utf8::encode_utf8("ce-mail-sealed-box-v1"@) + crate::crypto::x25519_mul(
                    k,
                    public->Ok_0@,
                ) + r->Ok_0.epk@,
            ),
            nonce@,
            plaintext@,
        ),
{
    assert(seed@.len() == 32);
    let c = crate::crypto::clamp(seed@);
    assert forall|i: int| 0 <= i < 32 implies k[i] == c[i] by {
        if 0 < i < 31 {
            assert(k[i] == seed@[i]);
        }
    }
    assert(k =~= c);
}

/// A drawn sealed body has a key of 32 bytes, a nonce of twelve and sixteen bytes more than was sealed.
pub proof fn lemma_drawn_sizes(
    node: &[u8; 32],
    plaintext: &[u8],
    r: Result<SealedBody, MailError>,
)
    requires
        call_ensures(seal, (node, plaintext), r),
        r is Ok,
    ensures
        r->Ok_0.epk@.len() == 32,
        r->Ok_0.nonce@.len() == 12,
        r->Ok_0.ciphertext@.len() == plaintext@.len() + 16,
{
}

/// A body whose key or nonce has the wrong length is malformed, the key first. Any other either opens
/// or does not, and what opens was sealed under the key that the secret and the body's key give.
pub proof fn lemma_opening_fails_if_malformed(
    ed_secret: &[u8; 32],
    secret: [u8; 32],
    sealed: &SealedBody,
    r: Result<Vec<u8>, MailError>,
)
    requires
        call_ensures(x25519_secret_from_ed25519, (ed_secret,), secret),
        call_ensures(open, (ed_secret, sealed), r),
    ensures
        sealed.epk@.len() != 32 ==> r == Err::<Vec<u8>, MailError>(
            MailError::MalformedEphemeralKey,
        ),
        sealed.epk@.len() == 32 && sealed.nonce@.len() != 12 ==> r == Err::<Vec<u8>, MailError>(
            MailError::MalformedNonce,
        ),
        sealed.epk@.len() == 32 && sealed.nonce@.len() == 12 ==> r is Ok || r == Err::<
            Vec<u8>,
            MailError,
        >(MailError::OpenFailed),
        r matches Ok(p) ==> sealed.ciphertext@ == crate::crypto::aead_sealed(
            crate::digest::sha256(
                vstd::utf8::encode_utf8("ce-mail-sealed-box-v1"@) + crate::crypto::x25519_mul(
                    secret@,
                    sealed.epk@,
                ) + sealed.epk@,
            ),
            sealed.nonce@,
            p@,
        ),
{
}

/// The X25519 secret is the front half of the SHA-512 hash of the Ed25519 secret, made fit for a
/// scalar.
pub proof fn lemma_secret_is_scalar_of_hash(ed_secret: &[u8; 32], r: [u8; 32])
    requires
        call_ensures(x25519_secret_from_ed25519, (ed_secret,), r),
    ensures
        is_scalar_of(r@, crate::crypto::sha512(ed_secret@).take(32)),
{
}

/// A sealed body is written as its key, its nonce and its ciphertext, each with its length in front.
/// It reads back as what was written, whatever follows, and from nothing less.
pub proof fn lemma_sealed_reads_back(
    s: &SealedBody,
    b: Vec<u8>,
    tried: Result<Vec<u8>, MailError>,
    bytes: &[u8],
    r: Result<SealedBody, MailError>,
)
    requires
        call_ensures(encode_sealed, (s,), b),
        call_ensures(try_encode_sealed, (s,), tried),
        call_ensures(decode_sealed, (bytes,), r),
    ensures
        b@ == crate::wire::le64(s.epk@.len() as u64) + s.epk@ + crate::wire::le64(
            s.nonce@.len() as u64,
        ) + s.nonce@ + crate::wire::le64(s.ciphertext@.len() as u64) + s.ciphertext@,
        tried matches Ok(t) && t@ == b@,
        b@.is_prefix_of(bytes@) ==> (r matches Ok(back) && back.epk@ == s.epk@ && back.nonce@
            == s.nonce@ && back.ciphertext@ == s.ciphertext@),
        bytes@.is_prefix_of(b@) && bytes@ != b@ ==> r == Err::<SealedBody, MailError>(
            MailError::Malformed(Format::SealedBody),
        ),
        r matches Ok(back) && back.epk@ == s.epk@ && back.nonce@ == s.nonce@ && back.ciphertext@
            == s.ciphertext@ ==> b@.is_prefix_of(bytes@),
{
    crate::wire::lemma_bytes_of_bytes(s.epk@);
    crate::wire::lemma_bytes_of_bytes(s.nonce@);
    crate::wire::lemma_bytes_of_bytes(s.ciphertext@);
    assert(b@ =~= crate::wire::le64(s.epk@.len() as u64) + s.epk@ + crate::wire::le64(
        s.nonce@.len() as u64,
    ) + s.nonce@ + crate::wire::le64(s.ciphertext@.len() as u64) + s.ciphertext@);
    crate::signing_laws::lemma_reads_exactly::<SealedBody>(s@, b@, bytes@);
    if let Ok(back) = r {
        if back.epk@ == s.epk@ && back.nonce@ == s.nonce@ && back.ciphertext@ == s.ciphertext@ {
            assert(back@ =~= s@);
        }
    }
}

} // verus!
