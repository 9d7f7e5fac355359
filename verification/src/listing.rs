//! What a command line shows of an inbox and keeps about it.

use crate::client::Message;
use crate::text::{chars_of, push_decimal, trimmed};
use vstd::prelude::*;

verus! {

/// The seconds of a day.
pub const DAY_SECS: u64 = 86400;

/// When a grant that is issued at `now` for `days` days expires; 0, which is never, for 0 days.
pub fn grant_expiry(now: u64, days: u64) -> (r: u64)
    requires
        now + days * DAY_SECS <= u64::MAX,
    ensures
        r == (if days == 0 {
            0
        } else {
            now + days * DAY_SECS
        }),
{
    if days == 0 {
        0
    } else {
        assert(days * DAY_SECS <= u64::MAX);
        now + days * DAY_SECS
    }
}

/// Whether `s` can be cut after `n` bytes.
pub open spec fn can_cut(s: Seq<char>, n: int) -> bool {
    vstd::utf8::encode_utf8(s).len() > n ==> vstd::utf8::is_char_boundary(
        vstd::utf8::encode_utf8(s),
        n,
    )
}

/// Whether `r` is `s`, or its first `n` bytes with an ellipsis if it has more.
pub open spec fn is_truncated(r: Seq<char>, s: Seq<char>, n: int) -> bool {
    if vstd::utf8::encode_utf8(s).len() <= n {
        r == s
    } else {
        r.len() > 0 && r.last() == '\u{2026}' && vstd::utf8::encode_utf8(r.drop_last())
            == vstd::utf8::encode_utf8(s).take(n)
    }
}

/// `s`, or its first `n` bytes with an ellipsis if it has more. It must be possible to cut it there.
pub fn truncate(s: &str, n: usize) -> (r: String)
    requires
        can_cut(s@, n as int),
    ensures
        is_truncated(r@, s@, n as int),
{
    if s.as_bytes().len() <= n {
        s.to_owned()
    } else {
        let (front, _) = s.split_at(n);
        let mut out: String = front.to_owned();
        out.push('\u{2026}');
        proof {
            assert(out@.drop_last() =~= front@);
            assert(vstd::utf8::encode_utf8(front@) =~= vstd::utf8::encode_utf8(s@).take(
                n as int,
            ));
        }
        out
    }
}

/// The number that the digits stand for.
pub open spec fn number(digits: Seq<char>) -> nat
    decreases digits.len(),
{
    if digits.len() == 0 {
        0
    } else {
        10 * number(digits.drop_last()) + (digits.last() as int - 48) as nat
    }
}

/// Whether `s` is one digit or more.
pub open spec fn is_number(s: Seq<char>) -> bool {
    s.len() > 0 && forall|i: int| 0 <= i < s.len() ==> '0' <= #[trigger] s[i] <= '9'
}

/// `s` without a plus sign in front.
pub open spec fn unsigned(s: Seq<char>) -> Seq<char> {
    if s.len() > 0 && s[0] == '+' {
        s.skip(1)
    } else {
        s
    }
}

/// The cursor that was saved as the text `s`; 0 if it is no number that fits.
pub open spec fn saved_cursor(s: Seq<char>) -> nat {
    let digits = unsigned(crate::text::trim(s));
    if is_number(digits) && number(digits) <= usize::MAX {
        number(digits)
    } else {
        0
    }
}

proof fn lemma_number_grows(a: Seq<char>, n: int)
    requires
        0 <= n <= a.len(),
        forall|i: int| 0 <= i < a.len() ==> '0' <= #[trigger] a[i] <= '9',
    ensures
        number(a.take(n)) <= number(a),
    decreases a.len(),
{
    if n < a.len() {
        lemma_number_grows(a.drop_last(), n);
        assert(a.drop_last().take(n) =~= a.take(n));
    } else {
        assert(a.take(n) =~= a);
    }
}

/// Reads a cursor from the text it was saved as; 0 if it is no number that fits.
pub fn parse_cursor(text: &str) -> (r: usize)
    ensures
        r == saved_cursor(text@),
{
    let chars = trimmed(text);
    let n: usize = chars.len();
    let start: usize = if n > 0 && chars[0] == '+' {
        1
    } else {
        0
    };
    let ghost digits = unsigned(chars@);
    assert(digits =~= chars@.skip(start as int));
    if start == n {
        return 0;
    }
    let mut k: usize = start;
    while k < n
        invariant
            start <= k <= n,
            n == chars@.len(),
            digits == chars@.skip(start as int),
            digits == unsigned(crate::text::trim(text@)),
            forall|i: int| 0 <= i < k - start ==> '0' <= #[trigger] digits[i] <= '9',
        decreases n - k,
    {
        let c: char = chars[k];
        if c < '0' || c > '9' {
            assert(!('0' <= digits[k - start] <= '9'));
            return 0;
        }
        assert(digits[k - start] == c);
        k += 1;
    }
    let mut value: usize = 0;
    let mut i: usize = start;
    assert(digits.take(0) =~= Seq::<char>::empty());
    while i < n
        invariant
            start <= i <= n,
            n == chars@.len(),
            digits == chars@.skip(start as int),
            digits == unsigned(crate::text::trim(text@)),
            is_number(digits),
            value == number(digits.take(i - start)),
        decreases n - i,
    {
        assert(digits[i - start] == chars@[i as int]);
        let d: usize = (chars[i] as u32 - 48) as usize;
        proof {
            let longer = digits.take(i + 1 - start);
            assert(longer.drop_last() =~= digits.take(i - start));
            lemma_number_grows(digits, i + 1 - start);
        }
        match value.checked_mul(10) {
            Some(tens) => match tens.checked_add(d) {
                Some(sum) => {
                    value = sum;
                },
                None => {
                    return 0;
                },
            },
            None => {
                return 0;
            },
        }
        i += 1;
    }
    assert(digits.take(n - start) =~= digits);
    value
}

/// The text by which a cursor is saved.
pub fn cursor_text(cursor: usize) -> (r: String)
    ensures
        r@ == crate::text::decimal(cursor as nat),
{
    let mut out: String = String::new();
    push_decimal(&mut out, cursor);
    assert(out@ =~= crate::text::decimal(cursor as nat));
    out
}

/// A number in decimal is a number, and that number.
pub proof fn lemma_decimal_is_number(n: nat)
    ensures
        is_number(crate::text::decimal(n)),
        number(crate::text::decimal(n)) == n,
    decreases n,
{
    let s = crate::text::decimal(n);
    if n >= 10 {
        lemma_decimal_is_number(n / 10);
        assert(s.drop_last() =~= crate::text::decimal(n / 10));
        assert(s.last() as int == 48 + n % 10);
    } else {
        assert(s.drop_last() =~= Seq::<char>::empty());
        assert(number(s.drop_last()) == 0);
        assert(s.last() as int == 48 + n);
    }
}

/// A cursor reads back from the text by which it is saved.
pub proof fn lemma_cursor_round_trip(cursor: usize)
    ensures
        saved_cursor(crate::text::decimal(cursor as nat)) == cursor,
{
    let s = crate::text::decimal(cursor as nat);
    lemma_decimal_is_number(cursor as nat);
    assert('0' <= s[0] <= '9');
    assert('0' <= s[s.len() - 1] <= '9');
    assert(crate::text::trim(s) == s);
}

/// Whether none of the first `n` ids starts with the prefix.
pub open spec fn none_starts(ids: Seq<String>, n: int, prefix: Seq<char>) -> bool {
    forall|k: int| 0 <= k < n ==> !prefix.is_prefix_of((#[trigger] ids[k])@)
}

/// The position of the first of the ids that starts with `prefix`.
pub fn find_by_prefix(ids: &Vec<String>, prefix: &str) -> (r: Option<usize>)
    ensures
        match r {
            Some(i) => i < ids@.len() && prefix@.is_prefix_of(ids@[i as int]@) && none_starts(
                ids@,
                i as int,
                prefix@,
            ),
            None => none_starts(ids@, ids@.len() as int, prefix@),
        },
{
    let wanted = chars_of(prefix);
    let mut i: usize = 0;
    while i < ids.len()
        invariant
            i <= ids@.len(),
            wanted@ == prefix@,
            forall|k: int| 0 <= k < i ==> !prefix@.is_prefix_of((#[trigger] ids@[k])@),
        decreases ids@.len() - i,
    {
        let id = chars_of(ids[i].as_str());
        if starts_with(id.as_slice(), wanted.as_slice()) {
            return Some(i);
        }
        i += 1;
    }
    None
}

fn starts_with(s: &[char], prefix: &[char]) -> (r: bool)
    ensures
        r == prefix@.is_prefix_of(s@),
{
    if prefix.len() > s.len() {
        return false;
    }
    let mut i: usize = 0;
    while i < prefix.len()
        invariant
            i <= prefix@.len() <= s@.len(),
            forall|k: int| 0 <= k < i ==> s@[k] == prefix@[k],
        decreases prefix@.len() - i,
    {
        if s[i] != prefix[i] {
            assert(s@.subrange(0, prefix@.len() as int)[i as int] != prefix@[i as int]);
            return false;
        }
        i += 1;
    }
    assert(s@.subrange(0, prefix@.len() as int) =~= prefix@);
    true
}

/// The line that shows a message: the start of its id, the start of its sender, and its subject.
pub fn inbox_line(m: &Message) -> (r: String)
    requires
        can_cut(m@.envelope.body.from, 12),
    ensures
        exists|from: Seq<char>| #[trigger]
            is_truncated(from, m@.envelope.body.from, 12) && r@
                == crate::envelope::message_id_of(m@.envelope.body).take(16) + "  "@ + from + "  "@
                + (match m@.sealed_subject {
                Some(s) => s,
                None => m@.envelope.body.subject,
            }),
{
    let id = m.id();
    let from = truncate(m.envelope.body.from.as_str(), 12);
    let ghost shown = from@;
    assert(is_truncated(shown, m@.envelope.body.from, 12));
    let mut out: String = id.as_str().substring_char(0, 16).to_owned();
    assert(out@ =~= id@.take(16));
    out.append("  ");
    out.append(from.as_str());
    out.append("  ");
    out.append(m.subject().as_str());
    out
}

} // verus!
