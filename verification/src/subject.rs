//! Subjects as keys: a reply and what it replies to have the same normalized subject.

use crate::text::{chars_of, is_white_space, lower_of, skip_white_space, text_of, trimmed};
use vstd::prelude::*;

verus! {

/// The position of the first colon of `s`; the length of `s` if there is none.
pub open spec fn colon(s: Seq<char>) -> int
    decreases s.len(),
{
    if s.len() == 0 || s[0] == ':' {
        0
    } else {
        1 + colon(s.skip(1))
    }
}

/// Whether `w`, in lower case, is `p` with a count in brackets behind it, such as `re[2]`.
pub open spec fn is_counted(w: Seq<char>, p: Seq<char>) -> bool {
    &&& w.len() >= p.len() + 2
    &&& w.take(p.len() as int) == p
    &&& w[p.len() as int] == '['
    &&& w.last() == ']'
    &&& forall|i: int| p.len() < i < w.len() - 1 ==> '0' <= #[trigger] w[i] <= '9'
}

/// Whether `w` is the prefix `p` in whatever case, with or without a count in brackets.
pub open spec fn is_form_of(w: Seq<char>, p: Seq<char>) -> bool {
    crate::text::lower(w) == p || is_counted(crate::text::lower(w), p)
}

/// Whether `w` is a prefix that replies and forwards put in front of a subject.
pub open spec fn is_reply_prefix(w: Seq<char>) -> bool {
    ||| is_form_of(w, "re"@)
    ||| is_form_of(w, "fwd"@)
    ||| is_form_of(w, "fw"@)
    ||| is_form_of(w, "aw"@)
    ||| is_form_of(w, "sv"@)
    ||| is_form_of(w, "vs"@)
}

/// The number of digits in front of `s`.
pub open spec fn digits_len(s: Seq<char>) -> int
    decreases s.len(),
{
    if s.len() > 0 && '0' <= s[0] <= '9' {
        1 + digits_len(s.skip(1))
    } else {
        0
    }
}

/// The length of the count in brackets, such as `[2]`, in front of `s`; 0 if there is none.
pub open spec fn count_len(s: Seq<char>) -> int {
    if s.len() > 0 && s[0] == '[' {
        let d = digits_len(s.skip(1));
        if d > 0 && d + 1 < s.len() && s[d + 1] == ']' {
            d + 2
        } else {
            0
        }
    } else {
        0
    }
}

/// `s` without the reply prefix in front, if what precedes its first colon is one, or without the
/// count in front, and without the white space behind it.
pub open spec fn strip_one(s: Seq<char>) -> Option<Seq<char>> {
    if colon(s) < s.len() && is_reply_prefix(s.take(colon(s))) {
        Some(crate::text::trim_start(s.skip(colon(s) + 1)))
    } else if count_len(s) > 0 {
        Some(crate::text::trim_start(s.skip(count_len(s))))
    } else {
        None
    }
}

/// `s` without all the reply prefixes and counts in front.
pub open spec fn strip_all(s: Seq<char>) -> Seq<char>
    decreases s.len(),
{
    match strip_one(s) {
        Some(rest) => if rest.len() < s.len() {
            strip_all(rest)
        } else {
            rest
        },
        None => s,
    }
}

/// `s` with each run of white space made one space, and none at either end.
pub open spec fn squeezed(s: Seq<char>) -> Seq<char>
    decreases s.len(),
{
    if s.len() == 0 {
        s
    } else {
        let front = squeezed(s.drop_last());
        if crate::text::white_space(s.last()) {
            front
        } else if front.len() > 0 && crate::text::white_space(s[s.len() - 2]) {
            front.push(' ').push(s.last())
        } else {
            front.push(s.last())
        }
    }
}

/// The key of a subject: trimmed, without reply prefixes and counts in front, with white space
/// squeezed, in lower case.
pub open spec fn normalized(s: Seq<char>) -> Seq<char> {
    crate::text::lower(squeezed(strip_all(crate::text::trim(s))))
}

/// The position of the first colon at or after `from`; the length if there is none.
fn find_colon(chars: &[char], from: usize) -> (at: usize)
    requires
        from <= chars@.len(),
    ensures
        from <= at <= chars@.len(),
        at - from == colon(chars@.skip(from as int)),
{
    let mut at: usize = from;
    while at < chars.len() && chars[at] != ':'
        invariant
            from <= at <= chars@.len(),
            at - from + colon(chars@.skip(at as int)) == colon(chars@.skip(from as int)),
        decreases chars@.len() - at,
    {
        assert(chars@.skip(at as int).skip(1) =~= chars@.skip(at + 1));
        at += 1;
    }
    at
}

/// Whether the characters from `from` up to `to` are a form of the prefix `p`.
fn has_form(chars: &[char], from: usize, to: usize, p: &str) -> (r: bool)
    requires
        from <= to <= chars@.len(),
    ensures
        r == is_form_of(chars@.subrange(from as int, to as int), p@),
{
    let word = chars_of(p);
    let n: usize = word.len();
    let ghost w = crate::text::lower(chars@.subrange(from as int, to as int));
    if to - from < n {
        return false;
    }
    let mut i: usize = 0;
    while i < n
        invariant
            i <= n,
            n == word@.len(),
            word@ == p@,
            n <= to - from,
            from <= to <= chars@.len(),
            w == crate::text::lower(chars@.subrange(from as int, to as int)),
            forall|k: int| 0 <= k < i ==> w[k] == p@[k],
        decreases n - i,
    {
        if lower_of(chars[from + i]) != word[i] {
            assert(w[i as int] != p@[i as int]);
            assert(w.take(n as int)[i as int] != p@[i as int]);
            return false;
        }
        i += 1;
    }
    assert(w.take(n as int) =~= p@);
    if to - from == n {
        assert(w =~= p@);
        return true;
    }
    if to - from - n < 2 || chars[from + n] != '[' || chars[to - 1] != ']' {
        return false;
    }
    let mut k: usize = from + n + 1;
    while k < to - 1
        invariant
            from + n + 1 <= k <= to - 1,
            to <= chars@.len(),
            n == p@.len(),
            w == crate::text::lower(chars@.subrange(from as int, to as int)),
            w.take(n as int) == p@,
            w[n as int] == '[',
            w.last() == ']',
            forall|j: int| n < j < k - from ==> '0' <= #[trigger] w[j] <= '9',
        decreases to - k,
    {
        let c: char = chars[k];
        if c < '0' || c > '9' {
            assert(!('0' <= w[k - from] <= '9'));
            return false;
        }
        k += 1;
    }
    true
}

/// Whether the characters from `from` up to `to` are a reply prefix.
fn has_reply_prefix(chars: &[char], from: usize, to: usize) -> (r: bool)
    requires
        from <= to <= chars@.len(),
    ensures
        r == is_reply_prefix(chars@.subrange(from as int, to as int)),
{
    has_form(chars, from, to, "re") || has_form(chars, from, to, "fwd") || has_form(
        chars,
        from,
        to,
        "fw",
    ) || has_form(chars, from, to, "aw") || has_form(chars, from, to, "sv") || has_form(
        chars,
        from,
        to,
        "vs",
    )
}

/// The length of the count in brackets at `from`; 0 if there is none.
fn find_count(chars: &[char], from: usize) -> (n: usize)
    requires
        from <= chars@.len(),
    ensures
        n == count_len(chars@.skip(from as int)),
        from + n <= chars@.len(),
{
    let ghost s = chars@.skip(from as int);
    if from >= chars.len() || chars[from] != '[' {
        return 0;
    }
    let mut k: usize = from + 1;
    assert(s.skip(1) =~= chars@.skip(from + 1));
    while k < chars.len() && '0' <= chars[k] && chars[k] <= '9'
        invariant
            from + 1 <= k <= chars@.len(),
            k - from - 1 + digits_len(chars@.skip(k as int)) == digits_len(
                chars@.skip(from + 1),
            ),
        decreases chars@.len() - k,
    {
        assert(chars@.skip(k as int).skip(1) =~= chars@.skip(k + 1));
        k += 1;
    }
    assert(digits_len(s.skip(1)) == k - from - 1);
    if k == from + 1 || k >= chars.len() || chars[k] != ']' {
        return 0;
    }
    assert(s[k - from] == ']');
    k + 1 - from
}

/// The position behind the reply prefix with its colon, or the count, that starts at `from`, and
/// behind the white space after it.
fn strip_prefix_token(chars: &[char], from: usize) -> (r: Option<usize>)
    requires
        from <= chars@.len(),
    ensures
        match strip_one(chars@.skip(from as int)) {
            Some(rest) => r matches Some(at) && from < at <= chars@.len() && rest == chars@.skip(
                at as int,
            ),
            None => r is None,
        },
{
    let ghost s = chars@.skip(from as int);
    let to: usize = find_colon(chars, from);
    assert(s.take(to - from) =~= chars@.subrange(from as int, to as int));
    if to < chars.len() && has_reply_prefix(chars, from, to) {
        assert(s.skip(to - from + 1) =~= chars@.skip(to + 1));
        return Some(skip_white_space(chars, to + 1));
    }
    let n: usize = find_count(chars, from);
    if n == 0 {
        return None;
    }
    assert(s.skip(n as int) =~= chars@.skip(from + n));
    Some(skip_white_space(chars, from + n))
}

/// The characters from `from` on, squeezed and in lower case.
fn squeeze(chars: &[char], from: usize) -> (r: Vec<char>)
    requires
        from <= chars@.len(),
    ensures
        r@ == crate::text::lower(squeezed(chars@.skip(from as int))),
{
    let ghost s = chars@.skip(from as int);
    let mut out: Vec<char> = Vec::new();
    let mut i: usize = from;
    assert(s.take(0) =~= Seq::<char>::empty());
    assert(out@ =~= crate::text::lower(squeezed(s.take(0))));
    while i < chars.len()
        invariant
            from <= i <= chars@.len(),
            s == chars@.skip(from as int),
            out@ == crate::text::lower(squeezed(s.take(i - from))),
        decreases chars@.len() - i,
    {
        let c: char = chars[i];
        let ghost before = s.take(i - from);
        let ghost after = s.take(i + 1 - from);
        assert(after.drop_last() =~= before);
        assert(after.last() == c);
        proof {
            if before.len() > 0 {
                assert(after[after.len() - 2] == chars@[i - 1]);
            }
        }
        if !is_white_space(c) {
            if out.len() > 0 && is_white_space(chars[i - 1]) {
                out.push(' ');
            }
            out.push(lower_of(c));
        }
        assert(out@ =~= crate::text::lower(squeezed(after)));
        i += 1;
    }
    assert(s.take(chars@.len() - from) =~= s);
    out
}

/// The key of a subject: trimmed, without the prefixes and counts that replies and forwards put in
/// front (`Re:`, `Fwd:`, `RE[2]:`, `Re: [2]` and the like), with white space squeezed, in lower case.
pub fn normalize_subject(subject: &str) -> (r: String)
    ensures
        r@ == normalized(subject@),
{
    let chars = trimmed(subject);
    let mut at: usize = 0;
    assert(chars@.skip(0) =~= chars@);
    loop
        invariant
            at <= chars@.len(),
            strip_all(chars@.skip(at as int)) == strip_all(crate::text::trim(subject@)),
        ensures
            at <= chars@.len(),
            chars@.skip(at as int) == strip_all(crate::text::trim(subject@)),
        decreases chars@.len() - at,
    {
        match strip_prefix_token(chars.as_slice(), at) {
            Some(next) => {
                at = next;
            },
            None => {
                break;
            },
        }
    }
    text_of(squeeze(chars.as_slice(), at).as_slice())
}

/// The first colon is a colon, and none stands in front of it.
pub proof fn lemma_colon_bounds(s: Seq<char>)
    ensures
        0 <= colon(s) <= s.len(),
        colon(s) < s.len() ==> s[colon(s)] == ':',
        forall|i: int| 0 <= i < colon(s) ==> s[i] != ':',
    decreases s.len(),
{
    if s.len() > 0 && s[0] != ':' {
        lemma_colon_bounds(s.skip(1));
        assert forall|i: int| 0 <= i < colon(s) implies s[i] != ':' by {
            if i > 0 {
                assert(s.skip(1)[i - 1] == s[i]);
            }
        }
    }
}

proof fn lemma_colon_is(s: Seq<char>, k: int)
    requires
        0 <= k < s.len(),
        s[k] == ':',
        forall|i: int| 0 <= i < k ==> s[i] != ':',
    ensures
        colon(s) == k,
{
    lemma_colon_bounds(s);
    if colon(s) < k {
        assert(s[colon(s)] != ':');
    }
}

/// Trimming the front takes white space away, and all of it.
pub proof fn lemma_trim_start(s: Seq<char>)
    ensures
        ({
            let t = crate::text::trim_start(s);
            &&& t.len() <= s.len()
            &&& t == s.skip(s.len() - t.len())
            &&& t.len() > 0 ==> !crate::text::white_space(t[0])
            &&& forall|i: int|
                0 <= i < s.len() - t.len() ==> crate::text::white_space(#[trigger] s[i])
        }),
    decreases s.len(),
{
    if s.len() > 0 && crate::text::white_space(s[0]) {
        let u = s.skip(1);
        lemma_trim_start(u);
        let t = crate::text::trim_start(s);
        assert(t =~= s.skip(s.len() - t.len()));
        assert forall|i: int| 0 <= i < s.len() - t.len() implies crate::text::white_space(
            #[trigger] s[i],
        ) by {
            if i > 0 {
                assert(u[i - 1] == s[i]);
            }
        }
    } else {
        assert(s.skip(0) =~= s);
    }
}

/// Trimming the end takes white space away, and all of it.
pub proof fn lemma_trim_end(s: Seq<char>)
    ensures
        ({
            let t = crate::text::trim_end(s);
            &&& t.len() <= s.len()
            &&& t == s.take(t.len() as int)
            &&& t.len() > 0 ==> !crate::text::white_space(t.last())
            &&& forall|i: int| t.len() <= i < s.len() ==> crate::text::white_space(#[trigger] s[i])
        }),
    decreases s.len(),
{
    if s.len() > 0 && crate::text::white_space(s.last()) {
        lemma_trim_end(s.drop_last());
        let t = crate::text::trim_end(s);
        assert(t =~= s.take(t.len() as int));
        assert forall|i: int| t.len() <= i < s.len() implies crate::text::white_space(
            #[trigger] s[i],
        ) by {
            if i < s.len() - 1 {
                assert(s.drop_last()[i] == s[i]);
            }
        }
    } else {
        assert(s.take(s.len() as int) =~= s);
    }
}

proof fn lemma_digits_are(s: Seq<char>, d: int)
    requires
        0 <= d < s.len(),
        forall|i: int| 0 <= i < d ==> '0' <= #[trigger] s[i] <= '9',
        !('0' <= s[d] <= '9'),
    ensures
        digits_len(s) == d,
    decreases d,
{
    if d > 0 {
        let t = s.skip(1);
        assert forall|i: int| 0 <= i < d - 1 implies '0' <= #[trigger] t[i] <= '9' by {
            assert(t[i] == s[i + 1]);
        }
        assert(t[d - 1] == s[d]);
        assert('0' <= s[0] <= '9');
        lemma_digits_are(t, d - 1);
    }
}

proof fn lemma_digits(s: Seq<char>)
    ensures
        0 <= digits_len(s) <= s.len(),
        forall|i: int| 0 <= i < digits_len(s) ==> '0' <= #[trigger] s[i] <= '9',
    decreases s.len(),
{
    if s.len() > 0 && '0' <= s[0] <= '9' {
        lemma_digits(s.skip(1));
        assert forall|i: int| 0 <= i < digits_len(s) implies '0' <= #[trigger] s[i] <= '9' by {
            if i > 0 {
                assert(s.skip(1)[i - 1] == s[i]);
            }
        }
    }
}

/// A count is an opening bracket, digits and a closing bracket.
pub proof fn lemma_count(s: Seq<char>)
    requires
        count_len(s) > 0,
    ensures
        3 <= count_len(s) <= s.len(),
        s[0] == '[',
        s[count_len(s) - 1] == ']',
        forall|i: int| 0 < i < count_len(s) - 1 ==> '0' <= #[trigger] s[i] <= '9',
{
    lemma_digits(s.skip(1));
    assert forall|i: int| 0 < i < count_len(s) - 1 implies '0' <= #[trigger] s[i] <= '9' by {
        assert(s.skip(1)[i - 1] == s[i]);
    }
}

/// An opening bracket, digits and a closing bracket are a count.
pub proof fn lemma_is_count(s: Seq<char>, n: int)
    requires
        3 <= n <= s.len(),
        s[0] == '[',
        s[n - 1] == ']',
        forall|i: int| 0 < i < n - 1 ==> '0' <= #[trigger] s[i] <= '9',
    ensures
        count_len(s) == n,
{
    let t = s.skip(1);
    assert forall|i: int| 0 <= i < n - 2 implies '0' <= #[trigger] t[i] <= '9' by {
        assert(t[i] == s[i + 1]);
    }
    assert(t[n - 2] == s[n - 1]);
    lemma_digits_are(t, n - 2);
}

/// Stripping makes a text shorter and leaves no white space in front.
proof fn lemma_strip_one(s: Seq<char>)
    ensures
        strip_one(s) matches Some(rest) ==> rest.len() < s.len() && (rest.len() > 0
            ==> !crate::text::white_space(rest[0])),
{
    lemma_colon_bounds(s);
    if colon(s) < s.len() && is_reply_prefix(s.take(colon(s))) {
        lemma_trim_start(s.skip(colon(s) + 1));
    } else if count_len(s) > 0 {
        lemma_count(s);
        lemma_trim_start(s.skip(count_len(s)));
    }
}

/// What is left when no prefix is left to strip starts with no prefix.
proof fn lemma_strip_all_is_done(s: Seq<char>)
    ensures
        strip_one(strip_all(s)) is None,
        strip_all(s).len() > 0 && s.len() > 0 && !crate::text::white_space(s[0])
            ==> !crate::text::white_space(strip_all(s)[0]),
    decreases s.len(),
{
    if let Some(rest) = strip_one(s) {
        lemma_strip_one(s);
        lemma_strip_all_is_done(rest);
    }
}

/// Whether white space in `s` is single spaces, each behind something else.
spec fn is_neat(s: Seq<char>) -> bool {
    forall|i: int|
        0 <= i < s.len() && crate::text::white_space(#[trigger] s[i]) ==> s[i] == ' ' && i > 0
            && !crate::text::white_space(s[i - 1])
}

/// Squeezing leaves nothing to squeeze.
proof fn lemma_squeezed_is_neat(s: Seq<char>)
    ensures
        is_neat(squeezed(s)),
        squeezed(s).len() > 0 ==> !crate::text::white_space(squeezed(s).last()),
    decreases s.len(),
{
    if s.len() > 0 {
        lemma_squeezed_is_neat(s.drop_last());
    }
}

/// Squeezing a neat text drops at most a space at its end.
proof fn lemma_neat_stays(s: Seq<char>)
    requires
        is_neat(s),
    ensures
        squeezed(s) == (if s.len() > 0 && crate::text::white_space(s.last()) {
            s.drop_last()
        } else {
            s
        }),
    decreases s.len(),
{
    if s.len() > 0 {
        let t = s.drop_last();
        assert forall|i: int|
            0 <= i < t.len() && crate::text::white_space(#[trigger] t[i]) implies t[i] == ' ' && i
            > 0 && !crate::text::white_space(t[i - 1]) by {
            assert(t[i] == s[i]);
            assert(t[i - 1] == s[i - 1]);
        }
        lemma_neat_stays(t);
        if crate::text::white_space(s.last()) {
            assert(s[s.len() - 1] == s.last());
            assert(t.last() == s[s.len() - 2]);
        } else if t.len() > 0 {
            assert(t.last() == s[s.len() - 2]);
            if crate::text::white_space(t.last()) {
                assert(t[t.len() - 1] == ' ');
                assert(t.drop_last().push(' ').push(s.last()) =~= s);
            } else {
                assert(t.push(s.last()) =~= s);
            }
        } else {
            assert(t.push(s.last()) =~= s);
        }
    }
}

/// A leading word stays where it is when the text is squeezed, and only a space can follow it.
proof fn lemma_leading_word_stays(a: Seq<char>, b: Seq<char>)
    requires
        forall|i: int| 0 <= i < a.len() ==> !crate::text::white_space(#[trigger] a[i]),
        a.len() > 0,
        b.len() > 0 ==> crate::text::white_space(b[0]),
    ensures
        ({
            let q = squeezed(a + b);
            &&& q.len() >= a.len()
            &&& q.take(a.len() as int) == a
            &&& q.len() > a.len() ==> q[a.len() as int] == ' '
            &&& b.len() > 0 && !crate::text::white_space(b.last()) ==> q.len() > a.len()
        }),
    decreases b.len(),
{
    let s = a + b;
    if b.len() == 0 {
        assert(s =~= a);
        assert(is_neat(a));
        lemma_neat_stays(a);
        assert(a[a.len() - 1] == a.last());
        assert(a.take(a.len() as int) =~= a);
    } else {
        let c = b.drop_last();
        assert(s.drop_last() =~= a + c);
        if c.len() > 0 {
            assert(c[0] == b[0]);
        }
        lemma_leading_word_stays(a, c);
        let front = squeezed(a + c);
        let q = squeezed(s);
        assert(s.last() == b.last());
        if !crate::text::white_space(s.last()) {
            assert(b.len() >= 2);
            assert(s[s.len() - 2] == c.last());
            assert(q.take(a.len() as int) =~= front.take(a.len() as int));
        }
    }
}

/// The length of the leading word of `s`.
spec fn word_len(s: Seq<char>) -> int
    decreases s.len(),
{
    if s.len() == 0 || crate::text::white_space(s[0]) {
        0
    } else {
        1 + word_len(s.skip(1))
    }
}

proof fn lemma_word_len(s: Seq<char>)
    ensures
        0 <= word_len(s) <= s.len(),
        forall|i: int| 0 <= i < word_len(s) ==> !crate::text::white_space(#[trigger] s[i]),
        word_len(s) < s.len() ==> crate::text::white_space(s[word_len(s)]),
    decreases s.len(),
{
    if s.len() > 0 && !crate::text::white_space(s[0]) {
        lemma_word_len(s.skip(1));
        assert forall|i: int| 0 <= i < word_len(s) implies !crate::text::white_space(
            #[trigger] s[i],
        ) by {
            if i > 0 {
                assert(s.skip(1)[i - 1] == s[i]);
            }
        }
    }
}

proof fn lemma_lower_twice(s: Seq<char>)
    ensures
        crate::text::lower(crate::text::lower(s)) == crate::text::lower(s),
{
    assert(crate::text::lower(crate::text::lower(s)) =~= crate::text::lower(s));
}

proof fn lemma_form_has_no_space(w: Seq<char>, p: Seq<char>)
    requires
        is_form_of(w, p),
        forall|i: int| 0 <= i < p.len() ==> 'a' <= #[trigger] p[i] <= 'z',
    ensures
        forall|i: int|
            0 <= i < w.len() ==> !crate::text::white_space(#[trigger] w[i]) && w[i] != ':',
{
    let l = crate::text::lower(w);
    assert forall|i: int| 0 <= i < w.len() implies !crate::text::white_space(#[trigger] w[i])
        && w[i] != ':' by {
        assert(l[i] == crate::text::lower_char(w[i]));
        if i < p.len() {
            if l != p {
                assert(l.take(p.len() as int)[i] == p[i]);
            }
            assert(l[i] == p[i]);
        } else {
            assert(i == p.len() || i == w.len() - 1 || '0' <= l[i] <= '9');
        }
    }
}

/// A reply prefix is one word without a colon.
proof fn lemma_reply_prefix_is_word(w: Seq<char>)
    requires
        is_reply_prefix(w),
    ensures
        forall|i: int|
            0 <= i < w.len() ==> !crate::text::white_space(#[trigger] w[i]) && w[i] != ':',
        w.len() > 0,
{
    reveal_strlit("re");
    reveal_strlit("fwd");
    reveal_strlit("fw");
    reveal_strlit("aw");
    reveal_strlit("sv");
    reveal_strlit("vs");
    if is_form_of(w, "re"@) {
        lemma_form_has_no_space(w, "re"@);
    } else if is_form_of(w, "fwd"@) {
        lemma_form_has_no_space(w, "fwd"@);
    } else if is_form_of(w, "fw"@) {
        lemma_form_has_no_space(w, "fw"@);
    } else if is_form_of(w, "aw"@) {
        lemma_form_has_no_space(w, "aw"@);
    } else if is_form_of(w, "sv"@) {
        lemma_form_has_no_space(w, "sv"@);
    } else {
        lemma_form_has_no_space(w, "vs"@);
    }
    assert(crate::text::lower(w).len() == w.len());
}

/// Squeezing and lowering a text that starts with no reply prefix and no count makes none.
proof fn lemma_no_prefix_appears(t: Seq<char>)
    requires
        strip_one(t) is None,
        t.len() > 0 ==> !crate::text::white_space(t[0]),
    ensures
        strip_one(crate::text::lower(squeezed(t))) is None,
{
    let q = squeezed(t);
    let n = crate::text::lower(q);
    let k = word_len(t);
    lemma_word_len(t);
    lemma_colon_bounds(n);
    let c = colon(n);
    if t.len() == 0 {
        assert(q.len() == 0);
    } else {
        let a = t.take(k);
        let b = t.skip(k);
        assert(t =~= a + b);
        lemma_leading_word_stays(a, b);
        assert forall|i: int| 0 <= i < k implies #[trigger] n[i] == crate::text::lower_char(
            t[i],
        ) by {
            assert(q.take(k)[i] == t[i]);
        }
        if c < n.len() && is_reply_prefix(n.take(c)) {
            let w = n.take(c);
            lemma_reply_prefix_is_word(w);
            assert(c < k) by {
                if k <= c {
                    assert(q[k] == ' ');
                    assert(n[k] == ' ');
                    if k < c {
                        assert(w[k] == ' ');
                    }
                }
            }
            assert forall|i: int| 0 <= i < c implies t[i] != ':' by {
                assert(n[i] != ':');
            }
            assert(n[c] == crate::text::lower_char(t[c]));
            assert(t[c] == ':');
            lemma_colon_is(t, c);
            let v = t.take(c);
            assert(crate::text::lower(v) =~= crate::text::lower(w)) by {
                assert(w =~= crate::text::lower(v));
                lemma_lower_twice(v);
            }
            assert(is_reply_prefix(v));
        } else if count_len(n) > 0 {
            lemma_count(n);
            let m = count_len(n);
            assert(m <= k) by {
                if k < m {
                    assert(n[k] == ' ');
                    assert(k == 0 || k == m - 1 || '0' <= n[k] <= '9');
                }
            }
            assert(n[0] == crate::text::lower_char(t[0]));
            assert(n[m - 1] == crate::text::lower_char(t[m - 1]));
            assert forall|i: int| 0 < i < m - 1 implies '0' <= #[trigger] t[i] <= '9' by {
                assert('0' <= n[i] <= '9');
            }
            lemma_is_count(t, m);
        }
    }
}

/// Normalizing is idempotent: a normalized subject is its own key.
pub proof fn lemma_normalized_twice(s: Seq<char>)
    ensures
        normalized(normalized(s)) == normalized(s),
{
    let x = crate::text::trim(s);
    lemma_trim_start(s);
    let y = crate::text::trim_start(s);
    lemma_trim_end(y);
    if x.len() > 0 {
        assert(x[0] == y[0]);
    }
    let t = strip_all(x);
    lemma_strip_all_is_done(x);
    lemma_strip_all_shrinks(x);
    let q = squeezed(t);
    let n = crate::text::lower(q);
    lemma_squeezed_is_neat(t);
    assert forall|i: int|
        0 <= i < n.len() && crate::text::white_space(#[trigger] n[i]) implies n[i] == ' ' && i > 0
        && !crate::text::white_space(n[i - 1]) by {
        assert(crate::text::white_space(q[i]));
        assert(q[i - 1] == q[i - 1]);
    }
    lemma_neat_stays(n);
    if n.len() > 0 {
        assert(n.last() == crate::text::lower_char(q.last()));
        assert(!crate::text::white_space(n.last()));
        assert(!crate::text::white_space(n[0]));
    }
    assert(crate::text::trim(n) == n);
    lemma_no_prefix_appears(t);
    assert(strip_all(n) == n);
    lemma_lower_twice(q);
}

proof fn lemma_strip_all_shrinks(s: Seq<char>)
    ensures
        strip_all(s).len() <= s.len(),
    decreases s.len(),
{
    if let Some(rest) = strip_one(s) {
        lemma_strip_one(s);
        lemma_strip_all_shrinks(rest);
    }
}

/// Trimming the front and trimming the end can be done in either order.
proof fn lemma_trims_commute(s: Seq<char>)
    ensures
        crate::text::trim_start(crate::text::trim_end(s)) == crate::text::trim(s),
    decreases s.len(),
{
    if s.len() > 0 && crate::text::white_space(s[0]) {
        let u = s.skip(1);
        lemma_trims_commute(u);
        lemma_trim_end(s);
        lemma_trim_end(u);
        let e = crate::text::trim_end(s);
        let f = crate::text::trim_end(u);
        if e.len() == 0 {
            assert(f.len() == 0) by {
                if f.len() > 0 {
                    assert(crate::text::white_space(s[f.len() as int]));
                    assert(u[f.len() - 1] == s[f.len() as int]);
                }
            }
            assert(e =~= f);
        } else {
            assert(e[0] == s[0]);
            assert(e.len() == f.len() + 1) by {
                if e.len() > f.len() + 1 {
                    assert(crate::text::white_space(u[e.len() - 2]));
                    assert(u[e.len() - 2] == s[e.len() - 1]);
                }
                if e.len() < f.len() + 1 {
                    assert(crate::text::white_space(s[f.len() as int]));
                    assert(u[f.len() - 1] == s[f.len() as int]);
                }
            }
            assert(e.skip(1) =~= f);
        }
    } else {
        lemma_trim_end(s);
        let e = crate::text::trim_end(s);
        if e.len() > 0 {
            assert(e[0] == s[0]);
        }
    }
}

/// What is put in front of a subject is followed, once the whole is trimmed, by the subject without
/// the white space at its end.
proof fn lemma_trim_behind(front: Seq<char>, subject: Seq<char>)
    requires
        front.len() > 0,
        !crate::text::white_space(front[0]),
        !crate::text::white_space(front.last()),
    ensures
        crate::text::trim(front + subject) == front + crate::text::trim_end(subject),
{
    let s = front + subject;
    let n = front.len() as int;
    assert(s[0] == front[0]);
    assert(crate::text::trim_start(s) == s);
    let e = crate::text::trim_end(subject);
    let x = front + e;
    lemma_trim_end(subject);
    lemma_trim_end(s);
    let t = crate::text::trim_end(s);
    assert(t.len() == x.len()) by {
        if t.len() < x.len() {
            assert(crate::text::white_space(s[x.len() - 1]));
            if e.len() > 0 {
                assert(s[x.len() - 1] == e.last());
            } else {
                assert(s[x.len() - 1] == front.last());
            }
        }
        if t.len() > x.len() {
            assert(t.last() == s[t.len() - 1]);
            assert(s[t.len() - 1] == subject[t.len() - 1 - n]);
            assert(crate::text::white_space(subject[t.len() - 1 - n]));
        }
    }
    assert(t =~= x);
}

/// A reply prefix in front of a subject does not change its key: a reply has the key of what it
/// replies to.
pub proof fn lemma_reply_prefix_is_ignored(prefix: Seq<char>, subject: Seq<char>)
    requires
        is_reply_prefix(prefix),
    ensures
        normalized(prefix + seq![':'] + subject) == normalized(subject),
{
    let n = prefix.len() as int;
    let front = prefix + seq![':'];
    lemma_reply_prefix_is_word(prefix);
    assert(front[0] == prefix[0]);
    lemma_trim_behind(front, subject);
    let e = crate::text::trim_end(subject);
    let x = front + e;
    assert forall|i: int| 0 <= i < n implies x[i] != ':' by {
        assert(x[i] == prefix[i]);
    }
    assert(x[n] == ':');
    lemma_colon_is(x, n);
    assert(x.take(n) =~= prefix);
    assert(x.skip(n + 1) =~= e);
    lemma_trims_commute(subject);
    lemma_strip_one(x);
    assert(strip_one(x) == Some(crate::text::trim(subject)));
}

/// Whether `s` is a count in brackets, such as `[2]`.
pub open spec fn is_count(s: Seq<char>) -> bool {
    s.len() > 0 && count_len(s) == s.len()
}

/// A count in brackets in front of a subject does not change its key either.
pub proof fn lemma_count_is_ignored(count: Seq<char>, subject: Seq<char>)
    requires
        is_count(count),
    ensures
        normalized(count + subject) == normalized(subject),
{
    let n = count.len() as int;
    lemma_count(count);
    lemma_trim_behind(count, subject);
    let e = crate::text::trim_end(subject);
    let x = count + e;
    assert forall|i: int| 0 < i < n - 1 implies '0' <= #[trigger] x[i] <= '9' by {
        assert(x[i] == count[i]);
    }
    assert(x[n - 1] == count[n - 1]);
    lemma_is_count(x, n);
    assert(x.skip(n) =~= e);
    lemma_trims_commute(subject);
    lemma_colon_bounds(x);
    if colon(x) < x.len() && is_reply_prefix(x.take(colon(x))) {
        lemma_bracket_is_no_prefix(x.take(colon(x)));
    }
    lemma_strip_one(x);
    assert(strip_one(x) == Some(crate::text::trim(subject)));
}

/// A reply prefix does not start with a bracket.
proof fn lemma_bracket_is_no_prefix(w: Seq<char>)
    requires
        is_reply_prefix(w),
    ensures
        w.len() > 0,
        w[0] != '[',
{
    reveal_strlit("re");
    reveal_strlit("fwd");
    reveal_strlit("fw");
    reveal_strlit("aw");
    reveal_strlit("sv");
    reveal_strlit("vs");
    let l = crate::text::lower(w);
    assert(l.len() == w.len());
    assert(l.len() > 0 && l[0] != '[') by {
        if is_counted(l, "re"@) {
            assert(l.take("re"@.len() as int)[0] == l[0]);
        } else if is_counted(l, "fwd"@) {
            assert(l.take("fwd"@.len() as int)[0] == l[0]);
        } else if is_counted(l, "fw"@) {
            assert(l.take("fw"@.len() as int)[0] == l[0]);
        } else if is_counted(l, "aw"@) {
            assert(l.take("aw"@.len() as int)[0] == l[0]);
        } else if is_counted(l, "sv"@) {
            assert(l.take("sv"@.len() as int)[0] == l[0]);
        } else if is_counted(l, "vs"@) {
            assert(l.take("vs"@.len() as int)[0] == l[0]);
        }
    }
    assert(l[0] == crate::text::lower_char(w[0]));
}

/// Whether `s` is white space and nothing else.
pub open spec fn is_gap(s: Seq<char>) -> bool {
    forall|i: int| 0 <= i < s.len() ==> crate::text::white_space(#[trigger] s[i])
}

/// White space in front of a subject does not change its key.
pub proof fn lemma_gap_is_ignored(gap: Seq<char>, subject: Seq<char>)
    requires
        is_gap(gap),
    ensures
        normalized(gap + subject) == normalized(subject),
    decreases gap.len(),
{
    if gap.len() == 0 {
        assert(gap + subject =~= subject);
    } else {
        let rest = gap.skip(1);
        assert forall|i: int| 0 <= i < rest.len() implies crate::text::white_space(
            #[trigger] rest[i],
        ) by {
            assert(rest[i] == gap[i + 1]);
        }
        assert((gap + subject)[0] == gap[0]);
        assert((gap + subject).skip(1) =~= rest + subject);
        lemma_gap_is_ignored(rest, subject);
    }
}

/// The subject with prefixes in front, each with a colon and a gap behind it.
pub open spec fn stacked(prefixes: Seq<(Seq<char>, Seq<char>)>, subject: Seq<char>) -> Seq<char>
    decreases prefixes.len(),
{
    if prefixes.len() == 0 {
        subject
    } else {
        let (prefix, gap) = prefixes[0];
        prefix + seq![':'] + (gap + stacked(prefixes.skip(1), subject))
    }
}

/// However many reply prefixes pile up in front of a subject, with whatever white space between them,
/// the key stays the same.
pub proof fn lemma_any_stack_is_ignored(
    prefixes: Seq<(Seq<char>, Seq<char>)>,
    subject: Seq<char>,
)
    requires
        forall|i: int|
            0 <= i < prefixes.len() ==> is_reply_prefix((#[trigger] prefixes[i]).0) && is_gap(
                prefixes[i].1,
            ),
    ensures
        normalized(stacked(prefixes, subject)) == normalized(subject),
    decreases prefixes.len(),
{
    if prefixes.len() > 0 {
        let (prefix, gap) = prefixes[0];
        let rest = prefixes.skip(1);
        assert forall|i: int| 0 <= i < rest.len() implies is_reply_prefix((#[trigger] rest[i]).0)
            && is_gap(rest[i].1) by {
            assert(rest[i] == prefixes[i + 1]);
        }
        lemma_any_stack_is_ignored(rest, subject);
        lemma_gap_is_ignored(gap, stacked(rest, subject));
        lemma_reply_prefix_is_ignored(prefix, gap + stacked(rest, subject));
    }
}

} // verus!
