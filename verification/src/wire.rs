//! The binary form of every value that leaves the process.
//!
//! Integers are little-endian and of fixed width, text and lists carry their length in front as
//! eight bytes, structs and tuples are their fields in order, and an enum is the number of its
//! variant in four bytes followed by the variant's fields. A reader takes what it needs from the
//! front of the bytes and leaves the rest.

use crate::digest::array_of_32;
use vstd::prelude::*;
use vstd::slice::{slice_subrange, slice_to_vec};

verus! {

/// The eight bytes of `v`, least significant first.
pub open spec fn le64(v: u64) -> Seq<u8> {
    vstd::bytes::spec_u64_to_le_bytes(v)
}

/// The four bytes of `v`, least significant first.
pub open spec fn le32(v: u32) -> Seq<u8> {
    vstd::bytes::spec_u32_to_le_bytes(v)
}

/// The text `s` as its length in bytes followed by its UTF-8 bytes.
pub open spec fn text_bytes(s: Seq<char>) -> Seq<u8> {
    le64(vstd::utf8::encode_utf8(s).len() as u64) + vstd::utf8::encode_utf8(s)
}

/// What reading eight bytes as a number from the front of `b` gives, with what is left over.
pub open spec fn parse_u64(b: Seq<u8>) -> Option<(u64, Seq<u8>)> {
    if b.len() >= 8 {
        Some((vstd::bytes::spec_u64_from_le_bytes(b.take(8)), b.skip(8)))
    } else {
        None
    }
}

/// What reading four bytes as a number from the front of `b` gives, with what is left over.
pub open spec fn parse_u32(b: Seq<u8>) -> Option<(u32, Seq<u8>)> {
    if b.len() >= 4 {
        Some((vstd::bytes::spec_u32_from_le_bytes(b.take(4)), b.skip(4)))
    } else {
        None
    }
}

/// What reading a length and that many bytes of UTF-8 from the front of `b` gives, with what is
/// left over.
pub open spec fn parse_text(b: Seq<u8>) -> Option<(Seq<char>, Seq<u8>)> {
    match parse_u64(b) {
        Some((n, rest)) => if n <= usize::MAX && n <= rest.len() && vstd::utf8::valid_utf8(
            rest.take(n as int),
        ) {
            Some((vstd::utf8::decode_utf8(rest.take(n as int)), rest.skip(n as int)))
        } else {
            None
        },
        None => None,
    }
}

/// Appends `v` with `bincode::serialize_into`, which writes a `u64` as its eight little-endian
/// bytes and cannot fail on a vector.
#[verifier::external_body]
fn write_u64(out: &mut Vec<u8>, v: u64)
    ensures
        final(out)@ == old(out)@ + le64(v),
{
    let _ = bincode::serialize_into(out, &v);
}

/// Appends `v` with `bincode::serialize_into`, which writes a `u32` as its four little-endian
/// bytes and cannot fail on a vector.
#[verifier::external_body]
fn write_u32(out: &mut Vec<u8>, v: u32)
    ensures
        final(out)@ == old(out)@ + le32(v),
{
    let _ = bincode::serialize_into(out, &v);
}

/// Appends `s` with `bincode::serialize_into`, which writes text as its byte length in eight
/// little-endian bytes followed by the UTF-8 bytes and cannot fail on a vector.
#[verifier::external_body]
pub(crate) fn write_text(out: &mut Vec<u8>, s: &str)
    ensures
        final(out)@ == old(out)@ + text_bytes(s@),
{
    let _ = bincode::serialize_into(out, s);
}

/// Reads a `u64` with `bincode::deserialize`: the first eight bytes, little-endian, whatever
/// follows them; an error exactly when there are fewer than eight.
#[verifier::external_body]
fn read_u64(bytes: &[u8]) -> (r: Option<u64>)
    ensures
        r == (match parse_u64(bytes@) {
            Some((v, _)) => Some(v),
            None => None::<u64>,
        }),
{
    bincode::deserialize::<u64>(bytes).ok()
}

/// Reads a `u32` with `bincode::deserialize`: the first four bytes, little-endian, whatever
/// follows them; an error exactly when there are fewer than four.
#[verifier::external_body]
fn read_u32(bytes: &[u8]) -> (r: Option<u32>)
    ensures
        r == (match parse_u32(bytes@) {
            Some((v, _)) => Some(v),
            None => None::<u32>,
        }),
{
    bincode::deserialize::<u32>(bytes).ok()
}

/// Reads text with `bincode::deserialize`: a length in eight little-endian bytes, then that many
/// bytes of UTF-8, whatever follows them; an error exactly when the length is no `usize`, when
/// bytes are missing, or when they are not UTF-8.
#[verifier::external_body]
fn read_text(bytes: &[u8]) -> (r: Option<String>)
    ensures
        match parse_text(bytes@) {
            Some((s, _)) => r is Some && r->0@ == s,
            None => r is None,
        },
{
    bincode::deserialize::<String>(bytes).ok()
}

/// A type with a binary form.
pub trait Wire: DeepView + Sized {
    /// Whether `v` is small enough for this machine to hold, so that reading it back is possible.
    spec fn fits(v: Self::V) -> bool;

    /// The bytes of `v`.
    spec fn wire(v: Self::V) -> Seq<u8>;

    /// The value at the front of `b` and the bytes after it; `None` if there is none.
    spec fn parse(b: Seq<u8>) -> Option<(Self::V, Seq<u8>)>;

    /// Reading gives back what was written and leaves what follows.
    proof fn lemma_reads_back(v: Self::V, rest: Seq<u8>)
        requires
            Self::fits(v),
        ensures
            Self::parse(Self::wire(v) + rest) == Some((v, rest)),
    ;

    /// What could be read is what writing the value gives.
    proof fn lemma_wrote(b: Seq<u8>)
        ensures
            Self::parse(b) matches Some((v, rest)) ==> Self::fits(v) && b == Self::wire(v) + rest,
    ;

    /// Appends the bytes of `self`.
    fn put(&self, out: &mut Vec<u8>)
        ensures
            final(out)@ == old(out)@ + Self::wire(self.deep_view()),
            Self::fits(self.deep_view()),
    ;

    /// Reads a value from the front of `bytes`; returns it with the number of bytes it took.
    fn get(bytes: &[u8]) -> (r: Option<(Self, usize)>)
        ensures
            match Self::parse(bytes@) {
                Some((v, rest)) => r matches Some((x, used)) && x.deep_view() == v && used
                    <= bytes@.len() && rest == bytes@.skip(used as int),
                None => r is None,
            },
    ;
}

/// A number takes eight bytes.
pub proof fn lemma_le64_len(v: u64)
    ensures
        le64(v).len() == 8,
{
    vstd::bytes::lemma_auto_spec_u64_to_from_le_bytes();
}

/// A short number takes four bytes.
pub proof fn lemma_le32_len(v: u32)
    ensures
        le32(v).len() == 4,
{
    vstd::bytes::lemma_auto_spec_u32_to_from_le_bytes();
}

/// Bytes in a list are written as they are.
pub proof fn lemma_bytes_of_bytes(b: Seq<u8>)
    ensures
        items_bytes::<u8>(b) == b,
    decreases b.len(),
{
    if b.len() > 0 {
        lemma_bytes_of_bytes(b.skip(1));
        assert(b =~= seq![b[0]] + b.skip(1));
    } else {
        assert(b =~= Seq::<u8>::empty());
    }
}

proof fn lemma_le64(v: u64, rest: Seq<u8>)
    ensures
        le64(v).len() == 8,
        parse_u64(le64(v) + rest) == Some((v, rest)),
{
    vstd::bytes::lemma_auto_spec_u64_to_from_le_bytes();
    let b = le64(v) + rest;
    assert(b.take(8) =~= le64(v));
    assert(b.skip(8) =~= rest);
}

proof fn lemma_le64_wrote(b: Seq<u8>)
    ensures
        parse_u64(b) matches Some((v, rest)) ==> b == le64(v) + rest && rest.len() == b.len() - 8,
{
    vstd::bytes::lemma_auto_spec_u64_to_from_le_bytes();
    if b.len() >= 8 {
        assert(b =~= b.take(8) + b.skip(8));
    }
}

proof fn lemma_le32(v: u32, rest: Seq<u8>)
    ensures
        le32(v).len() == 4,
        parse_u32(le32(v) + rest) == Some((v, rest)),
{
    vstd::bytes::lemma_auto_spec_u32_to_from_le_bytes();
    let b = le32(v) + rest;
    assert(b.take(4) =~= le32(v));
    assert(b.skip(4) =~= rest);
}

proof fn lemma_le32_wrote(b: Seq<u8>)
    ensures
        parse_u32(b) matches Some((v, rest)) ==> b == le32(v) + rest && rest.len() == b.len() - 4,
{
    vstd::bytes::lemma_auto_spec_u32_to_from_le_bytes();
    if b.len() >= 4 {
        assert(b =~= b.take(4) + b.skip(4));
    }
}

impl Wire for u64 {
    open spec fn fits(v: u64) -> bool {
        true
    }

    open spec fn wire(v: u64) -> Seq<u8> {
        le64(v)
    }

    open spec fn parse(b: Seq<u8>) -> Option<(u64, Seq<u8>)> {
        parse_u64(b)
    }

    proof fn lemma_reads_back(v: u64, rest: Seq<u8>) {
        lemma_le64(v, rest);
    }

    proof fn lemma_wrote(b: Seq<u8>) {
        lemma_le64_wrote(b);
    }

    fn put(&self, out: &mut Vec<u8>) {
        write_u64(out, *self);
    }

    fn get(bytes: &[u8]) -> (r: Option<(u64, usize)>) {
        match read_u64(bytes) {
            Some(v) => Some((v, 8)),
            None => None,
        }
    }
}

impl Wire for u32 {
    open spec fn fits(v: u32) -> bool {
        true
    }

    open spec fn wire(v: u32) -> Seq<u8> {
        le32(v)
    }

    open spec fn parse(b: Seq<u8>) -> Option<(u32, Seq<u8>)> {
        parse_u32(b)
    }

    proof fn lemma_reads_back(v: u32, rest: Seq<u8>) {
        lemma_le32(v, rest);
    }

    proof fn lemma_wrote(b: Seq<u8>) {
        lemma_le32_wrote(b);
    }

    fn put(&self, out: &mut Vec<u8>) {
        write_u32(out, *self);
    }

    fn get(bytes: &[u8]) -> (r: Option<(u32, usize)>) {
        match read_u32(bytes) {
            Some(v) => Some((v, 4)),
            None => None,
        }
    }
}

impl Wire for String {
    open spec fn fits(v: Seq<char>) -> bool {
        vstd::utf8::encode_utf8(v).len() <= usize::MAX
    }

    open spec fn wire(v: Seq<char>) -> Seq<u8> {
        text_bytes(v)
    }

    open spec fn parse(b: Seq<u8>) -> Option<(Seq<char>, Seq<u8>)> {
        parse_text(b)
    }

    proof fn lemma_reads_back(v: Seq<char>, rest: Seq<u8>) {
        let u = vstd::utf8::encode_utf8(v);
        lemma_le64(u.len() as u64, u + rest);
        assert(text_bytes(v) + rest =~= le64(u.len() as u64) + (u + rest));
        assert((u + rest).take(u.len() as int) =~= u);
        assert((u + rest).skip(u.len() as int) =~= rest);
        vstd::utf8::encode_utf8_decode_utf8(v);
        vstd::utf8::encode_utf8_valid_utf8(v);
    }

    proof fn lemma_wrote(b: Seq<u8>) {
        lemma_le64_wrote(b);
        if let Some((v, after)) = parse_text(b) {
            let (n, rest) = parse_u64(b)->0;
            let u = rest.take(n as int);
            vstd::utf8::decode_utf8_encode_utf8(u);
            assert(rest =~= u + after);
            assert(b =~= le64(n) + u + after);
        }
    }

    fn put(&self, out: &mut Vec<u8>) {
        let n: usize = self.as_str().as_bytes().len();
        assert(vstd::utf8::encode_utf8(self@).len() == n);
        write_text(out, self.as_str());
    }

    fn get(bytes: &[u8]) -> (r: Option<(String, usize)>) {
        match read_text(bytes) {
            Some(s) => {
                let n: usize = s.as_str().as_bytes().len();
                let total: usize = bytes.len();
                proof {
                    lemma_le64_wrote(bytes@);
                    let (m, rest) = parse_u64(bytes@)->0;
                    vstd::utf8::decode_utf8_encode_utf8(rest.take(m as int));
                    assert(rest.skip(m as int) =~= bytes@.skip(8 + m));
                    assert(n == m && 8 + n <= total);
                }
                Some((s, 8 + n))
            },
            None => None,
        }
    }
}

impl Wire for u8 {
    open spec fn fits(v: u8) -> bool {
        true
    }

    open spec fn wire(v: u8) -> Seq<u8> {
        seq![v]
    }

    open spec fn parse(b: Seq<u8>) -> Option<(u8, Seq<u8>)> {
        if b.len() >= 1 {
            Some((b[0], b.skip(1)))
        } else {
            None
        }
    }

    proof fn lemma_reads_back(v: u8, rest: Seq<u8>) {
        assert((seq![v] + rest).skip(1) =~= rest);
    }

    proof fn lemma_wrote(b: Seq<u8>) {
        if b.len() >= 1 {
            assert(b =~= seq![b[0]] + b.skip(1));
        }
    }

    fn put(&self, out: &mut Vec<u8>) {
        out.push(*self);
        assert(out@ =~= old(out)@ + seq![*self]);
    }

    fn get(bytes: &[u8]) -> (r: Option<(u8, usize)>) {
        if bytes.len() >= 1 {
            Some((bytes[0], 1))
        } else {
            None
        }
    }
}

impl Wire for bool {
    open spec fn fits(v: bool) -> bool {
        true
    }

    open spec fn wire(v: bool) -> Seq<u8> {
        seq![
            if v {
                1u8
            } else {
                0u8
            },
        ]
    }

    open spec fn parse(b: Seq<u8>) -> Option<(bool, Seq<u8>)> {
        if b.len() >= 1 && b[0] <= 1 {
            Some((b[0] == 1, b.skip(1)))
        } else {
            None
        }
    }

    proof fn lemma_reads_back(v: bool, rest: Seq<u8>) {
        assert((Self::wire(v) + rest).skip(1) =~= rest);
    }

    proof fn lemma_wrote(b: Seq<u8>) {
        if b.len() >= 1 && b[0] <= 1 {
            assert(b =~= Self::wire(b[0] == 1) + b.skip(1));
        }
    }

    fn put(&self, out: &mut Vec<u8>) {
        if *self {
            out.push(1);
        } else {
            out.push(0);
        }
        assert(out@ =~= old(out)@ + Self::wire(*self));
    }

    fn get(bytes: &[u8]) -> (r: Option<(bool, usize)>) {
        if bytes.len() >= 1 && bytes[0] <= 1 {
            Some((bytes[0] == 1, 1))
        } else {
            None
        }
    }
}

impl Wire for usize {
    open spec fn fits(v: usize) -> bool {
        true
    }

    open spec fn wire(v: usize) -> Seq<u8> {
        le64(v as u64)
    }

    open spec fn parse(b: Seq<u8>) -> Option<(usize, Seq<u8>)> {
        match parse_u64(b) {
            Some((n, rest)) => if n <= usize::MAX {
                Some((n as usize, rest))
            } else {
                None
            },
            None => None,
        }
    }

    proof fn lemma_reads_back(v: usize, rest: Seq<u8>) {
        lemma_le64(v as u64, rest);
    }

    proof fn lemma_wrote(b: Seq<u8>) {
        lemma_le64_wrote(b);
    }

    fn put(&self, out: &mut Vec<u8>) {
        write_u64(out, *self as u64);
    }

    fn get(bytes: &[u8]) -> (r: Option<(usize, usize)>) {
        match read_u64(bytes) {
            Some(v) => if v <= usize::MAX as u64 {
                Some((v as usize, 8))
            } else {
                None
            },
            None => None,
        }
    }
}

impl Wire for [u8; 32] {
    open spec fn fits(v: Seq<u8>) -> bool {
        v.len() == 32
    }

    open spec fn wire(v: Seq<u8>) -> Seq<u8> {
        v
    }

    open spec fn parse(b: Seq<u8>) -> Option<(Seq<u8>, Seq<u8>)> {
        if b.len() >= 32 {
            Some((b.take(32), b.skip(32)))
        } else {
            None
        }
    }

    proof fn lemma_reads_back(v: Seq<u8>, rest: Seq<u8>) {
        assert((v + rest).take(32) =~= v);
        assert((v + rest).skip(32) =~= rest);
    }

    proof fn lemma_wrote(b: Seq<u8>) {
        if b.len() >= 32 {
            assert(b =~= b.take(32) + b.skip(32));
        }
    }

    fn put(&self, out: &mut Vec<u8>) {
        let mut bytes: Vec<u8> = slice_to_vec(self.as_slice());
        assert(bytes@ =~= self.deep_view());
        out.append(&mut bytes);
    }

    fn get(bytes: &[u8]) -> (r: Option<([u8; 32], usize)>) {
        if bytes.len() >= 32 {
            let a = array_of_32(slice_subrange(bytes, 0, 32));
            assert(a.deep_view() =~= bytes@.take(32));
            Some((a, 32))
        } else {
            None
        }
    }
}

impl<A: Wire, B: Wire> Wire for (A, B) {
    open spec fn fits(v: (A::V, B::V)) -> bool {
        A::fits(v.0) && B::fits(v.1)
    }

    open spec fn wire(v: (A::V, B::V)) -> Seq<u8> {
        A::wire(v.0) + B::wire(v.1)
    }

    open spec fn parse(b: Seq<u8>) -> Option<((A::V, B::V), Seq<u8>)> {
        match A::parse(b) {
            Some((x, after)) => match B::parse(after) {
                Some((y, rest)) => Some(((x, y), rest)),
                None => None,
            },
            None => None,
        }
    }

    proof fn lemma_reads_back(v: (A::V, B::V), rest: Seq<u8>) {
        assert(Self::wire(v) + rest =~= A::wire(v.0) + (B::wire(v.1) + rest));
        A::lemma_reads_back(v.0, B::wire(v.1) + rest);
        B::lemma_reads_back(v.1, rest);
    }

    proof fn lemma_wrote(b: Seq<u8>) {
        A::lemma_wrote(b);
        if let Some((x, after)) = A::parse(b) {
            B::lemma_wrote(after);
            if let Some((y, rest)) = B::parse(after) {
                assert(A::wire(x) + (B::wire(y) + rest) =~= Self::wire((x, y)) + rest);
            }
        }
    }

    fn put(&self, out: &mut Vec<u8>) {
        self.0.put(out);
        self.1.put(out);
        proof {
            let v = self.deep_view();
            assert(out@ =~= old(out)@ + Self::wire(v));
        }
    }

    fn get(bytes: &[u8]) -> (r: Option<((A, B), usize)>) {
        let (x, n): (A, usize) = match A::get(bytes) {
            Some(got) => got,
            None => return None,
        };
        let tail = slice_subrange(bytes, n, bytes.len());
        assert(tail@ =~= bytes@.skip(n as int));
        let (y, m): (B, usize) = match B::get(tail) {
            Some(got) => got,
            None => return None,
        };
        assert(tail@.skip(m as int) =~= bytes@.skip(n + m));
        Some(((x, y), n + m))
    }
}

/// The bytes of the items of `s`, one after the other.
pub open spec fn items_bytes<T: Wire>(s: Seq<T::V>) -> Seq<u8>
    decreases s.len(),
{
    if s.len() == 0 {
        Seq::empty()
    } else {
        T::wire(s[0]) + items_bytes::<T>(s.skip(1))
    }
}

/// Reads `n` items, one after the other.
pub open spec fn parse_items<T: Wire>(b: Seq<u8>, n: nat) -> Option<(Seq<T::V>, Seq<u8>)>
    decreases n,
{
    if n == 0 {
        Some((Seq::empty(), b))
    } else {
        match T::parse(b) {
            Some((v, after)) => match parse_items::<T>(after, (n - 1) as nat) {
                Some((vs, rest)) => Some((seq![v] + vs, rest)),
                None => None,
            },
            None => None,
        }
    }
}

proof fn lemma_items_read_back<T: Wire>(s: Seq<T::V>, rest: Seq<u8>)
    requires
        forall|i: int| 0 <= i < s.len() ==> #[trigger] T::fits(s[i]),
    ensures
        parse_items::<T>(items_bytes::<T>(s) + rest, s.len()) == Some((s, rest)),
    decreases s.len(),
{
    if s.len() == 0 {
        assert(items_bytes::<T>(s) + rest =~= rest);
        assert(s =~= Seq::empty());
    } else {
        let tail = s.skip(1);
        assert(T::fits(s[0]));
        assert forall|i: int| 0 <= i < tail.len() implies #[trigger] T::fits(tail[i]) by {
            assert(T::fits(s[i + 1]));
        }
        lemma_items_read_back::<T>(tail, rest);
        assert(items_bytes::<T>(s) + rest =~= T::wire(s[0]) + (items_bytes::<T>(tail) + rest));
        T::lemma_reads_back(s[0], items_bytes::<T>(tail) + rest);
        assert(seq![s[0]] + tail =~= s);
    }
}

proof fn lemma_items_wrote<T: Wire>(b: Seq<u8>, n: nat)
    ensures
        parse_items::<T>(b, n) matches Some((s, rest)) ==> {
            &&& s.len() == n
            &&& forall|i: int| 0 <= i < s.len() ==> #[trigger] T::fits(s[i])
            &&& b == items_bytes::<T>(s) + rest
        },
    decreases n,
{
    if n == 0 {
        assert(items_bytes::<T>(Seq::empty()) + b =~= b);
    } else {
        T::lemma_wrote(b);
        if let Some((v, after)) = T::parse(b) {
            lemma_items_wrote::<T>(after, (n - 1) as nat);
            if let Some((vs, rest)) = parse_items::<T>(after, (n - 1) as nat) {
                let s = seq![v] + vs;
                assert(s.skip(1) =~= vs);
                assert forall|i: int| 0 <= i < s.len() implies #[trigger] T::fits(s[i]) by {
                    if i > 0 {
                        assert(T::fits(vs[i - 1]));
                    }
                }
                assert(T::wire(v) + (items_bytes::<T>(vs) + rest) =~= items_bytes::<T>(s) + rest);
            }
        }
    }
}

impl<T: Wire> Wire for Vec<T> {
    open spec fn fits(v: Seq<T::V>) -> bool {
        v.len() <= usize::MAX && forall|i: int| 0 <= i < v.len() ==> #[trigger] T::fits(v[i])
    }

    open spec fn wire(v: Seq<T::V>) -> Seq<u8> {
        le64(v.len() as u64) + items_bytes::<T>(v)
    }

    open spec fn parse(b: Seq<u8>) -> Option<(Seq<T::V>, Seq<u8>)> {
        match usize::parse(b) {
            Some((n, after)) => parse_items::<T>(after, n as nat),
            None => None,
        }
    }

    proof fn lemma_reads_back(v: Seq<T::V>, rest: Seq<u8>) {
        assert(Self::wire(v) + rest =~= le64(v.len() as u64) + (items_bytes::<T>(v) + rest));
        lemma_le64(v.len() as u64, items_bytes::<T>(v) + rest);
        lemma_items_read_back::<T>(v, rest);
    }

    proof fn lemma_wrote(b: Seq<u8>) {
        lemma_le64_wrote(b);
        if let Some((n, after)) = usize::parse(b) {
            lemma_items_wrote::<T>(after, n as nat);
            if let Some((v, rest)) = parse_items::<T>(after, n as nat) {
                assert(le64(n as u64) + (items_bytes::<T>(v) + rest) =~= Self::wire(v) + rest);
            }
        }
    }

    fn put(&self, out: &mut Vec<u8>) {
        let ghost start = out@;
        let ghost v = self.deep_view();
        let n: usize = self.len();
        write_u64(out, n as u64);
        let mut i: usize = 0;
        assert(v.skip(0) =~= v);
        while i < n
            invariant
                i <= n,
                n == self@.len(),
                v == self.deep_view(),
                out@ + items_bytes::<T>(v.skip(i as int)) == start + Self::wire(v),
                forall|k: int| 0 <= k < i ==> #[trigger] T::fits(v[k]),
            decreases n - i,
        {
            let ghost before = out@;
            self[i].put(out);
            proof {
                let left = v.skip(i as int);
                assert(left[0] == v[i as int]);
                assert(left.skip(1) =~= v.skip(i + 1));
                assert(before + (T::wire(v[i as int]) + items_bytes::<T>(v.skip(i + 1))) =~= out@
                    + items_bytes::<T>(v.skip(i + 1)));
            }
            i += 1;
        }
        assert(out@ + items_bytes::<T>(v.skip(n as int)) =~= out@);
    }

    fn get(bytes: &[u8]) -> (r: Option<(Vec<T>, usize)>) {
        let (n, head): (usize, usize) = match usize::get(bytes) {
            Some(got) => got,
            None => return None,
        };
        let total: usize = bytes.len();
        let mut items: Vec<T> = Vec::new();
        let mut at: usize = head;
        let mut i: usize = 0;
        assert(items.deep_view() =~= Seq::<T::V>::empty());
        proof {
            if let Some((vs, rest)) = parse_items::<T>(bytes@.skip(head as int), n as nat) {
                assert(Seq::<T::V>::empty() + vs =~= vs);
            }
        }
        while i < n
            invariant
                i <= n,
                at <= total,
                total == bytes@.len(),
                Self::parse(bytes@) == (match parse_items::<T>(
                    bytes@.skip(at as int),
                    (n - i) as nat,
                ) {
                    Some((vs, rest)) => Some((items.deep_view() + vs, rest)),
                    None => None,
                }),
            decreases n - i,
        {
            let tail = slice_subrange(bytes, at, total);
            assert(tail@ =~= bytes@.skip(at as int));
            let (x, used): (T, usize) = match T::get(tail) {
                Some(got) => got,
                None => return None,
            };
            let ghost seen = items.deep_view();
            items.push(x);
            proof {
                assert(tail@.skip(used as int) =~= bytes@.skip(at + used));
                assert(items.deep_view() =~= seen.push(x.deep_view()));
                if let Some((vs, rest)) = parse_items::<T>(
                    bytes@.skip(at + used),
                    (n - i - 1) as nat,
                ) {
                    assert(seen + (seq![x.deep_view()] + vs) =~= items.deep_view() + vs);
                }
            }
            at = at + used;
            i += 1;
        }
        assert(items.deep_view() + Seq::<T::V>::empty() =~= items.deep_view());
        Some((items, at))
    }
}

} // verus!
