//! End-to-end encryption of bodies and attachments.
//!
//! A node id is an Ed25519 public key. Its Montgomery form is an X25519 public key, so whoever
//! knows a node id can encrypt to it: an ephemeral X25519 key pair and the recipient's key give a
//! shared secret, the hash of the shared secret keys ChaCha20-Poly1305, and the ephemeral public
//! key travels beside the ciphertext. The recipient derives the matching X25519 secret from the
//! Ed25519 secret, as Ed25519 itself does.

use crate::digest::{array_of_32, sha256_of};
use crate::error::{Format, MailError};
use crate::wire::Wire;
use chacha20poly1305::aead::{Aead, KeyInit};
use curve25519_dalek::edwards::CompressedEdwardsY;
use curve25519_dalek::montgomery::MontgomeryPoint;
use curve25519_dalek::scalar::Scalar;
use rand::RngCore;
use vstd::prelude::*;

verus! {

/// The length of an X25519 public key.
pub const X25519_PUBLIC_LEN: usize = 32;

/// The length of a ChaCha20-Poly1305 nonce.
pub const NONCE_LEN: usize = 12;

/// The tag mixed into the key, so that it is never the key of another protocol.
pub const KDF_DOMAIN: &'static str = "ce-mail-sealed-box-v1";

/// A sealed body: the ephemeral public key, the nonce and the ciphertext with its tag.
#[derive(Debug, PartialEq, Eq)]
pub struct SealedBody {
    pub epk: Vec<u8>,
    pub nonce: Vec<u8>,
    pub ciphertext: Vec<u8>,
}

/// A sealed body as mathematical values.
#[verifier::ext_equal]
pub struct SealedModel {
    pub epk: Seq<u8>,
    pub nonce: Seq<u8>,
    pub ciphertext: Seq<u8>,
}

impl View for SealedBody {
    type V = SealedModel;

    open spec fn view(&self) -> SealedModel {
        SealedModel { epk: self.epk@, nonce: self.nonce@, ciphertext: self.ciphertext@ }
    }
}

impl DeepView for SealedBody {
    type V = SealedModel;

    open spec fn deep_view(&self) -> SealedModel {
        self.view()
    }
}

impl Clone for SealedBody {
    fn clone(&self) -> (r: Self)
        ensures
            r@ == self@,
    {
        let epk = self.epk.clone();
        let nonce = self.nonce.clone();
        let ciphertext = self.ciphertext.clone();
        assert(epk@ =~= self.epk@);
        assert(nonce@ =~= self.nonce@);
        assert(ciphertext@ =~= self.ciphertext@);
        SealedBody { epk, nonce, ciphertext }
    }
}

impl Wire for SealedBody {
    open spec fn fits(v: SealedModel) -> bool {
        <(Vec<u8>, (Vec<u8>, Vec<u8>))>::fits((v.epk, (v.nonce, v.ciphertext)))
    }

    open spec fn wire(v: SealedModel) -> Seq<u8> {
        <(Vec<u8>, (Vec<u8>, Vec<u8>))>::wire((v.epk, (v.nonce, v.ciphertext)))
    }

    open spec fn parse(b: Seq<u8>) -> Option<(SealedModel, Seq<u8>)> {
        match <(Vec<u8>, (Vec<u8>, Vec<u8>))>::parse(b) {
            Some(((epk, (nonce, ciphertext)), rest)) => Some(
                (SealedModel { epk, nonce, ciphertext }, rest),
            ),
            None => None,
        }
    }

    proof fn lemma_reads_back(v: SealedModel, rest: Seq<u8>) {
        <(Vec<u8>, (Vec<u8>, Vec<u8>))>::lemma_reads_back(
            (v.epk, (v.nonce, v.ciphertext)),
            rest,
        );
    }

    proof fn lemma_wrote(b: Seq<u8>) {
        <(Vec<u8>, (Vec<u8>, Vec<u8>))>::lemma_wrote(b);
    }

    fn put(&self, out: &mut Vec<u8>) {
        self.epk.put(out);
        self.nonce.put(out);
        self.ciphertext.put(out);
        assert(self.epk.deep_view() =~= self.epk@);
        assert(self.nonce.deep_view() =~= self.nonce@);
        assert(self.ciphertext.deep_view() =~= self.ciphertext@);
        assert(out@ =~= old(out)@ + Self::wire(self@));
    }

    fn get(bytes: &[u8]) -> (r: Option<(SealedBody, usize)>) {
        match <(Vec<u8>, (Vec<u8>, Vec<u8>))>::get(bytes) {
            Some(((epk, (nonce, ciphertext)), used)) => {
                assert(epk.deep_view() =~= epk@);
                assert(nonce.deep_view() =~= nonce@);
                assert(ciphertext.deep_view() =~= ciphertext@);
                Some((SealedBody { epk, nonce, ciphertext }, used))
            },
            None => None,
        }
    }
}

/// The SHA-512 hash of `data`.
pub uninterp spec fn sha512(data: Seq<u8>) -> Seq<u8>;

/// Hashes with `sha2::Sha512::digest`. The result is named `sha512`; it has 64 bytes.
#[verifier::external_body]
fn sha512_of(data: &[u8]) -> (r: Vec<u8>)
    ensures
        r@ == sha512(data@),
        r@.len() == 64,
{
    <sha2::Sha512 as sha2::Digest>::digest(data).to_vec()
}

/// The Montgomery form of the Edwards point that `key` is the compressed form of; `None` if `key`
/// is the compressed form of no point.
pub uninterp spec fn montgomery_form(key: Seq<u8>) -> Option<Seq<u8>>;

/// Decompresses with `CompressedEdwardsY::decompress` of `curve25519_dalek` and converts the point
/// with `EdwardsPoint::to_montgomery`. The result is named `montgomery_form`; it has 32 bytes.
#[verifier::external_body]
fn montgomery_form_of(key: &[u8; 32]) -> (r: Option<[u8; 32]>)
    ensures
        match montgomery_form(key@) {
            Some(point) => r is Some && r->0@ == point,
            None => r is None,
        },
{
    CompressedEdwardsY(*key).decompress().map(|p| p.to_montgomery().to_bytes())
}

/// The Montgomery point `point` times the scalar `secret` (reduced modulo the group order).
pub uninterp spec fn x25519_mul(secret: Seq<u8>, point: Seq<u8>) -> Seq<u8>;

/// The base point times the scalar `secret` (reduced modulo the group order), in Montgomery form.
pub uninterp spec fn x25519_base(secret: Seq<u8>) -> Seq<u8>;

/// Multiplies a `MontgomeryPoint` of `curve25519_dalek` by a `Scalar` made with
/// `Scalar::from_bytes_mod_order`. The result is named `x25519_mul`.
#[verifier::external_body]
fn x25519_mul_of(secret: &[u8; 32], point: &[u8; 32]) -> (r: [u8; 32])
    ensures
        r@ == x25519_mul(secret@, point@),
{
    (Scalar::from_bytes_mod_order(*secret) * MontgomeryPoint(*point)).to_bytes()
}

/// Multiplies the base point with `MontgomeryPoint::mul_base` of `curve25519_dalek`. The result is
/// named `x25519_base`. As both multiplications are by scalars in one group, the order in which two
/// scalars are applied to the base point does not matter.
#[verifier::external_body]
fn x25519_base_of(secret: &[u8; 32]) -> (r: [u8; 32])
    ensures
        r@ == x25519_base(secret@),
        forall|other: Seq<u8>|
            other.len() == 32 ==> #[trigger] x25519_mul(other, r@) == x25519_mul(
                secret@,
                x25519_base(other),
            ),
{
    MontgomeryPoint::mul_base(&Scalar::from_bytes_mod_order(*secret)).to_bytes()
}

/// Draws bytes with `rand::rngs::OsRng`; nothing but their number is known of them. Where the
/// system has no randomness to give, which no argument decides, the call panics.
#[verifier::external_body]
fn random_bytes(n: usize) -> (r: Vec<u8>)
    ensures
        r@.len() == n,
{
    let mut bytes = vec![0u8; n];
    rand::rngs::OsRng.fill_bytes(&mut bytes);
    bytes
}

/// The ChaCha20-Poly1305 ciphertext, with its tag, of `plaintext`.
pub uninterp spec fn aead_sealed(key: Seq<u8>, nonce: Seq<u8>, plaintext: Seq<u8>) -> Seq<u8>;

/// The plaintext of a ChaCha20-Poly1305 ciphertext with its tag; `None` if the tag is not right.
pub uninterp spec fn aead_opened(key: Seq<u8>, nonce: Seq<u8>, ciphertext: Seq<u8>) -> Option<
    Seq<u8>,
>;

/// The largest number of bytes that the cipher's block counter lasts for, starting at 1: 64 for each
/// of 2^32 - 2 blocks.
pub const MAX_PLAINTEXT: u64 = 274877906816;

/// The number of bytes from which on the cipher refuses a text: 64 for each of 2^32 - 1 blocks.
pub const REFUSED_PLAINTEXT: u64 = 274877906880;

/// Whether the cipher's block counter lasts for `n` bytes.
pub open spec fn within_counter(n: nat) -> bool {
    n <= MAX_PLAINTEXT
}

/// Whether `n` bytes are more than the block counter lasts for, but too few for the cipher to
/// refuse them.
pub open spec fn overruns(n: int) -> bool {
    MAX_PLAINTEXT < n < REFUSED_PLAINTEXT
}

/// Whether `n` bytes are more than the block counter lasts for, but too few for the cipher to
/// refuse them.
fn is_overrun(n: usize) -> (r: bool)
    ensures
        r == overruns(n as int),
{
    MAX_PLAINTEXT < n as u64 && (n as u64) < REFUSED_PLAINTEXT
}

/// Encrypts with `Aead::encrypt` of `chacha20poly1305::ChaCha20Poly1305`, which fails exactly from
/// `REFUSED_PLAINTEXT` bytes on. The result is named `aead_sealed`; it is longer than the plaintext
/// by the 16 bytes of the tag, and decrypts to the plaintext. The cipher panics on the lengths that
/// overrun its counter without being refused, so these are left out, and the ciphertext and its tag
/// have to fit in one allocation.
#[verifier::external_body]
fn aead_encrypt(key: &[u8], nonce: &[u8], plaintext: &[u8]) -> (r: Option<Vec<u8>>)
    requires
        key@.len() == 32,
        nonce@.len() == 12,
        plaintext@.len() + 16 <= isize::MAX,
        !overruns(plaintext@.len() as int),
    ensures
        r is Some == within_counter(plaintext@.len()),
        r matches Some(c) ==> c@ == aead_sealed(key@, nonce@, plaintext@) && c@.len()
            == plaintext@.len() + 16 && aead_opened(key@, nonce@, c@) == Some(plaintext@),
{
    let cipher = chacha20poly1305::ChaCha20Poly1305::new_from_slice(key).ok()?;
    cipher.encrypt(chacha20poly1305::Nonce::from_slice(nonce), plaintext).ok()
}

/// Decrypts with `Aead::decrypt` of `chacha20poly1305::ChaCha20Poly1305`. The result is named
/// `aead_opened`; a plaintext is shorter than its ciphertext by the 16 bytes of the tag, and
/// encrypting it gives that ciphertext: the tag is compared whole, and the key stream is the same
/// both ways. As when encrypting, the lengths on which the cipher panics are left out.
#[verifier::external_body]
fn aead_decrypt(key: &[u8], nonce: &[u8], ciphertext: &[u8]) -> (r: Option<Vec<u8>>)
    requires
        key@.len() == 32,
        nonce@.len() == 12,
        !overruns(ciphertext@.len() - 16),
    ensures
        match aead_opened(key@, nonce@, ciphertext@) {
            Some(p) => r is Some && r->0@ == p && p.len() + 16 == ciphertext@.len()
                && within_counter(p.len()) && ciphertext@ == aead_sealed(key@, nonce@, p),
            None => r is None,
        },
{
    let cipher = chacha20poly1305::ChaCha20Poly1305::new_from_slice(key).ok()?;
    cipher.decrypt(chacha20poly1305::Nonce::from_slice(nonce), ciphertext).ok()
}

/// `s` made an X25519 scalar: a multiple of the cofactor, with the top bits set as they must be.
pub open spec fn clamp(s: Seq<u8>) -> Seq<u8> {
    s.update(0, s[0] & 248u8).update(31, (s[31] & 127u8) | 64u8)
}

fn clamped(s: [u8; 32]) -> (r: [u8; 32])
    ensures
        r@ == clamp(s@),
{
    let mut a: [u8; 32] = s;
    a[0] = a[0] & 248u8;
    a[31] = (a[31] & 127u8) | 64u8;
    assert(a@ =~= clamp(s@));
    a
}

/// The X25519 secret that belongs to the Ed25519 secret `ed_secret`.
pub open spec fn x25519_secret(ed_secret: Seq<u8>) -> Seq<u8> {
    clamp(sha512(ed_secret).take(32))
}

/// Derives the X25519 secret from an Ed25519 secret, as Ed25519 expands its keys.
pub fn x25519_secret_from_ed25519(ed_secret: &[u8; 32]) -> (r: [u8; 32])
    ensures
        r@ == x25519_secret(ed_secret@),
        sha512(ed_secret@).len() == 64,
{
    let h = sha512_of(ed_secret.as_slice());
    let half = vstd::slice::slice_subrange(h.as_slice(), 0, 32);
    assert(half@ =~= sha512(ed_secret@).take(32));
    clamped(array_of_32(half))
}

/// The X25519 public key of the node with the given id; an error if the id is no Ed25519 key.
pub fn x25519_public_from_node_id(node_id: &[u8; 32]) -> (r: Result<[u8; 32], MailError>)
    ensures
        match montgomery_form(node_id@) {
            Some(point) => r is Ok && r->Ok_0@ == point,
            None => r == Err::<[u8; 32], MailError>(MailError::NotAKey),
        },
{
    match montgomery_form_of(node_id) {
        Some(point) => Ok(point),
        None => Err(MailError::NotAKey),
    }
}

/// The key of the cipher: the hash of the domain tag, the shared secret and the ephemeral key.
pub open spec fn kdf_of(shared: Seq<u8>, epk: Seq<u8>) -> Seq<u8> {
    crate::digest::sha256(vstd::utf8::encode_utf8(KDF_DOMAIN@) + shared + epk)
}

fn kdf(shared: &[u8; 32], epk: &[u8; 32]) -> (r: Vec<u8>)
    ensures
        r@ == kdf_of(shared@, epk@),
        r@.len() == 32,
{
    let mut input: Vec<u8> = vstd::slice::slice_to_vec(KDF_DOMAIN.as_bytes());
    let mut tail: Vec<u8> = vstd::slice::slice_to_vec(shared.as_slice());
    input.append(&mut tail);
    let mut tail: Vec<u8> = vstd::slice::slice_to_vec(epk.as_slice());
    input.append(&mut tail);
    sha256_of(input.as_slice())
}

fn ecdh(secret: &[u8; 32], public: &[u8; 32]) -> (r: [u8; 32])
    ensures
        r@ == x25519_mul(secret@, public@),
{
    x25519_mul_of(secret, public)
}

/// Whether a plaintext of `n` bytes can be sealed: the cipher's block counter lasts for it, and it
/// and the tag fit in one allocation.
pub open spec fn sealable(n: nat) -> bool {
    within_counter(n) && n + 16 <= isize::MAX
}

/// What sealing `plaintext` to `recipient` gives with the ephemeral secret made of `seed` and with
/// `nonce`.
pub open spec fn sealed_as(
    recipient: Seq<u8>,
    seed: Seq<u8>,
    nonce: Seq<u8>,
    plaintext: Seq<u8>,
) -> Result<SealedModel, MailError> {
    match montgomery_form(recipient) {
        None => Err(MailError::NotAKey),
        Some(public) => if sealable(plaintext.len()) {
            let epk = x25519_base(clamp(seed));
            let key = kdf_of(x25519_mul(clamp(seed), public), epk);
            Ok(SealedModel { epk, nonce, ciphertext: aead_sealed(key, nonce, plaintext) })
        } else {
            Err(MailError::SealFailed)
        },
    }
}

/// What opening `sealed` with the Ed25519 secret `ed_secret` gives.
pub open spec fn opened_as(ed_secret: Seq<u8>, sealed: SealedModel) -> Result<Seq<u8>, MailError> {
    if sealed.epk.len() != 32 {
        Err(MailError::MalformedEphemeralKey)
    } else if sealed.nonce.len() != 12 {
        Err(MailError::MalformedNonce)
    } else if overruns(sealed.ciphertext.len() - 16) {
        Err(MailError::OpenFailed)
    } else {
        let key = opening_key(ed_secret, sealed.epk);
        match aead_opened(key, sealed.nonce, sealed.ciphertext) {
            Some(plaintext) => Ok(plaintext),
            None => Err(MailError::OpenFailed),
        }
    }
}

/// The cipher's key for a sealed body with the ephemeral key `epk`, as the holder of the Ed25519 secret
/// `ed_secret` derives it.
pub open spec fn opening_key(ed_secret: Seq<u8>, epk: Seq<u8>) -> Seq<u8> {
    kdf_of(x25519_mul(x25519_secret(ed_secret), epk), epk)
}

/// Whether `sealed` is what encrypting `plaintext` gives, under the key that `ed_secret` derives for
/// it.
pub open spec fn is_exact_sealing(ed_secret: Seq<u8>, sealed: SealedModel, plaintext: Seq<u8>) -> bool {
    &&& sealed.epk.len() == 32
    &&& sealed.nonce.len() == 12
    &&& within_counter(plaintext.len())
    &&& sealed.ciphertext == aead_sealed(
        opening_key(ed_secret, sealed.epk),
        sealed.nonce,
        plaintext,
    )
}

/// Whether `ed_secret` is the secret of the node with the given id: the X25519 key that anyone
/// derives from the id is the one that the secret gives.
pub open spec fn is_key_pair(node_id: Seq<u8>, ed_secret: Seq<u8>) -> bool {
    &&& x25519_secret(ed_secret).len() == 32
    &&& montgomery_form(node_id) == Some(x25519_base(x25519_secret(ed_secret)))
}

/// A result with what it holds taken by its view.
pub open spec fn sealed_view(r: Result<SealedBody, MailError>) -> Result<SealedModel, MailError> {
    match r {
        Ok(s) => Ok(s@),
        Err(e) => Err(e),
    }
}

/// Seals `plaintext` to the recipient with the ephemeral secret made of `seed` and with `nonce`.
/// The recipient's secret opens what was sealed and gives back the plaintext.
pub fn seal_with(
    recipient_node_id: &[u8; 32],
    seed: &[u8; 32],
    nonce: &[u8; 12],
    plaintext: &[u8],
) -> (r: Result<SealedBody, MailError>)
    ensures
        sealed_view(r) == sealed_as(recipient_node_id@, seed@, nonce@, plaintext@),
        r matches Ok(s) ==> forall|ed_secret: Seq<u8>| #[trigger]
            is_key_pair(recipient_node_id@, ed_secret) ==> opened_as(ed_secret, s@) == Ok::<
                Seq<u8>,
                MailError,
            >(plaintext@) && is_exact_sealing(ed_secret, s@, plaintext@),
        r matches Ok(s) ==> s@.epk.len() == X25519_PUBLIC_LEN && s@.nonce.len() == NONCE_LEN
            && s@.ciphertext.len() == plaintext@.len() + 16,
{
    let public = match x25519_public_from_node_id(recipient_node_id) {
        Ok(point) => point,
        Err(e) => return Err(e),
    };
    let n: usize = plaintext.len();
    if n > isize::MAX as usize - 16 || is_overrun(n) {
        return Err(MailError::SealFailed);
    }
    let secret = clamped(*seed);
    let epk = x25519_base_of(&secret);
    let shared = ecdh(&secret, &public);
    let key = kdf(&shared, &epk);
    match aead_encrypt(key.as_slice(), nonce.as_slice(), plaintext) {
        Some(ciphertext) => {
            let sealed = SealedBody {
                epk: vstd::slice::slice_to_vec(epk.as_slice()),
                nonce: vstd::slice::slice_to_vec(nonce.as_slice()),
                ciphertext,
            };
            assert forall|ed_secret: Seq<u8>| #[trigger]
                is_key_pair(recipient_node_id@, ed_secret) implies opened_as(ed_secret, sealed@)
                == Ok::<Seq<u8>, MailError>(plaintext@) && is_exact_sealing(
                ed_secret,
                sealed@,
                plaintext@,
            ) by {
                assert(x25519_mul(x25519_secret(ed_secret), epk@) == shared@);
            }
            Ok(sealed)
        },
        None => Err(MailError::SealFailed),
    }
}

/// The 12 bytes of `v` as an array.
fn array_of_12(v: &[u8]) -> (r: [u8; 12])
    requires
        v@.len() == 12,
    ensures
        r@ == v@,
{
    let a: [u8; 12] = [
        v[0],
        v[1],
        v[2],
        v[3],
        v[4],
        v[5],
        v[6],
        v[7],
        v[8],
        v[9],
        v[10],
        v[11],
    ];
    assert(a@ =~= v@);
    a
}

/// Seals `plaintext` to the recipient with the given node id, with an ephemeral key and a nonce
/// drawn at random. Anyone can seal; the recipient's secret opens it and gives back the plaintext.
pub fn seal(recipient_node_id: &[u8; 32], plaintext: &[u8]) -> (r: Result<SealedBody, MailError>)
    ensures
        exists|seed: Seq<u8>, nonce: Seq<u8>|
            seed.len() == 32 && nonce.len() == 12 && sealed_view(r) == #[trigger] sealed_as(
                recipient_node_id@,
                seed,
                nonce,
                plaintext@,
            ),
        r matches Ok(s) ==> forall|ed_secret: Seq<u8>| #[trigger]
            is_key_pair(recipient_node_id@, ed_secret) ==> opened_as(ed_secret, s@) == Ok::<
                Seq<u8>,
                MailError,
            >(plaintext@) && is_exact_sealing(ed_secret, s@, plaintext@),
        r matches Ok(s) ==> s@.epk.len() == X25519_PUBLIC_LEN && s@.nonce.len() == NONCE_LEN
            && s@.ciphertext.len() == plaintext@.len() + 16,
{
    let seed = array_of_32(random_bytes(32).as_slice());
    let nonce = array_of_12(random_bytes(NONCE_LEN).as_slice());
    seal_with(recipient_node_id, &seed, &nonce, plaintext)
}

/// Opens a sealed body with the recipient's Ed25519 secret: an error if it is malformed, longer than
/// anything that can be sealed, or was not sealed to this recipient. Whatever opens is exactly what
/// sealing its plaintext gives, under the key that this secret derives. That no other body can be made
/// that opens is for the cipher to see to, and is not stated.
pub fn open(recipient_ed25519_secret: &[u8; 32], sealed: &SealedBody) -> (r: Result<
    Vec<u8>,
    MailError,
>)
    ensures
        match opened_as(recipient_ed25519_secret@, sealed@) {
            Ok(plaintext) => r is Ok && r->Ok_0@ == plaintext,
            Err(e) => r == Err::<Vec<u8>, MailError>(e),
        },
        r matches Ok(plaintext) ==> is_exact_sealing(
            recipient_ed25519_secret@,
            sealed@,
            plaintext@,
        ),
{
    if sealed.epk.len() != X25519_PUBLIC_LEN {
        return Err(MailError::MalformedEphemeralKey);
    }
    if sealed.nonce.len() != NONCE_LEN {
        return Err(MailError::MalformedNonce);
    }
    let n: usize = sealed.ciphertext.len();
    if n >= 16 && is_overrun(n - 16) {
        return Err(MailError::OpenFailed);
    }
    let secret = x25519_secret_from_ed25519(recipient_ed25519_secret);
    let epk = array_of_32(sealed.epk.as_slice());
    let shared = ecdh(&secret, &epk);
    let key = kdf(&shared, &epk);
    match aead_decrypt(key.as_slice(), sealed.nonce.as_slice(), sealed.ciphertext.as_slice()) {
        Some(plaintext) => Ok(plaintext),
        None => Err(MailError::OpenFailed),
    }
}

/// The bytes of a sealed body.
pub fn encode_sealed(s: &SealedBody) -> (r: Vec<u8>)
    ensures
        r@ == SealedBody::wire(s@),
        SealedBody::fits(s@),
{
    let mut out: Vec<u8> = Vec::new();
    s.put(&mut out);
    assert(out@ =~= SealedBody::wire(s@));
    out
}

/// The bytes of a sealed body; there is no sealed body that has none.
pub fn try_encode_sealed(s: &SealedBody) -> (r: Result<Vec<u8>, MailError>)
    ensures
        r is Ok,
        r->Ok_0@ == SealedBody::wire(s@),
        SealedBody::fits(s@),
{
    Ok(encode_sealed(s))
}

/// Reads a sealed body from its bytes.
pub fn decode_sealed(b: &[u8]) -> (r: Result<SealedBody, MailError>)
    ensures
        match SealedBody::parse(b@) {
            Some((s, _)) => r is Ok && r->Ok_0@ == s,
            None => r == Err::<SealedBody, MailError>(MailError::Malformed(Format::SealedBody)),
        },
{
    match SealedBody::get(b) {
        Some((s, _)) => Ok(s),
        None => Err(MailError::Malformed(Format::SealedBody)),
    }
}

/// A sealed body reads back from its bytes as itself.
pub proof fn lemma_sealed_round_trip(s: SealedModel)
    requires
        SealedBody::fits(s),
    ensures
        SealedBody::parse(SealedBody::wire(s)) == Some((s, Seq::<u8>::empty())),
{
    let none = Seq::<u8>::empty();
    assert(SealedBody::wire(s) + none =~= SealedBody::wire(s));
    SealedBody::lemma_reads_back(s, none);
}

/// A sealed body whose ciphertext was changed never opens to what was sealed: of two bodies with the
/// same ephemeral key and the same nonce that open with one secret, and so are sealings of what they
/// open to, those with different ciphertexts open to different plaintexts.
pub proof fn lemma_changed_ciphertext_opens_to_something_else(
    ed_secret: Seq<u8>,
    a: SealedModel,
    b: SealedModel,
    p: Seq<u8>,
    q: Seq<u8>,
)
    requires
        a.epk == b.epk,
        a.nonce == b.nonce,
        a.ciphertext != b.ciphertext,
        is_exact_sealing(ed_secret, a, p),
        is_exact_sealing(ed_secret, b, q),
    ensures
        p != q,
{
}

/// Whether the cipher takes the ciphertext for good under this key and nonce alone, and under them takes
/// this ciphertext alone for good.
pub open spec fn stands_alone(key: Seq<u8>, nonce: Seq<u8>, ciphertext: Seq<u8>) -> bool {
    &&& forall|k: Seq<u8>, n: Seq<u8>| #[trigger]
        aead_opened(k, n, ciphertext) is Some ==> k == key && n == nonce
    &&& forall|c: Seq<u8>| #[trigger] aead_opened(key, nonce, c) is Some ==> c == ciphertext
}

/// A sealed body that was tampered with, or that is opened with a secret that derives another key, does
/// not open, wherever the cipher takes the ciphertext for good under its key and nonce alone, and no
/// other under them.
pub proof fn lemma_tampered_does_not_open(
    ed_secret: Seq<u8>,
    sealed: SealedModel,
    other_secret: Seq<u8>,
    changed: SealedModel,
)
    requires
        stands_alone(opening_key(ed_secret, sealed.epk), sealed.nonce, sealed.ciphertext),
        ({
            let same_place = opening_key(other_secret, changed.epk) == opening_key(
                ed_secret,
                sealed.epk,
            ) && changed.nonce == sealed.nonce;
            same_place != (changed.ciphertext == sealed.ciphertext)
        }),
    ensures
        opened_as(other_secret, changed) is Err,
{
}

} // verus!
