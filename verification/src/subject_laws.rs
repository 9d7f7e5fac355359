//! What becomes of a subject, said of calls and what they give.

use crate::subject::normalize_subject;
use crate::text::{is_white_space, lower_of, trimmed};
use vstd::prelude::*;

verus! {

/// Whether the letters spell the word, in whatever case.
pub open spec fn spells(letters: Seq<char>, word: Seq<char>) -> bool {
    letters.len() == word.len() && forall|i: int|
        0 <= i < word.len() ==> #[trigger] letters[i] == word[i] || letters[i] as int + 32
            == word[i] as int
}

/// Whether the text is digits and nothing else.
pub open spec fn is_digits(s: Seq<char>) -> bool {
    forall|i: int| 0 <= i < s.len() ==> '0' <= #[trigger] s[i] <= '9'
}

/// Whether `mark` is the word in whatever case, alone or with digits in brackets behind it.
pub open spec fn marks(mark: Seq<char>, word: Seq<char>) -> bool {
    ||| spells(mark, word)
    ||| exists|letters: Seq<char>, digits: Seq<char>|
        #![trigger spells(letters, word), is_digits(digits)]
        spells(letters, word) && is_digits(digits) && mark == letters + seq!['['] + digits + seq![
            ']',
        ]
}

/// Whether `mark` is what a reply or a forward puts in front of a subject, before a colon.
pub open spec fn is_mark(mark: Seq<char>) -> bool {
    ||| marks(mark, "re"@)
    ||| marks(mark, "fwd"@)
    ||| marks(mark, "fw"@)
    ||| marks(mark, "aw"@)
    ||| marks(mark, "sv"@)
    ||| marks(mark, "vs"@)
}

/// To spell a word is to be it in small letters.
pub proof fn lemma_spells(letters: Seq<char>, word: Seq<char>)
    requires
        forall|i: int| 0 <= i < word.len() ==> 'a' <= #[trigger] word[i] <= 'z',
    ensures
        spells(letters, word) <==> crate::text::lower(letters) == word,
{
    let l = crate::text::lower(letters);
    if spells(letters, word) {
        assert forall|i: int| 0 <= i < word.len() implies l[i] == word[i] by {
            assert(letters[i] == word[i] || letters[i] as int + 32 == word[i] as int);
        }
        assert(l =~= word);
    }
    if l == word {
        assert forall|i: int| 0 <= i < word.len() implies #[trigger] letters[i] == word[i]
            || letters[i] as int + 32 == word[i] as int by {
            assert(l[i] == crate::text::lower_char(letters[i]));
        }
    }
}

proof fn lemma_marks(mark: Seq<char>, word: Seq<char>)
    requires
        forall|i: int| 0 <= i < word.len() ==> 'a' <= #[trigger] word[i] <= 'z',
    ensures
        marks(mark, word) <==> crate::subject::is_form_of(mark, word),
{
    lemma_spells(mark, word);
    let l = crate::text::lower(mark);
    let n = word.len() as int;
    if !spells(mark, word) && marks(mark, word) {
        let (letters, digits) = choose|letters: Seq<char>, digits: Seq<char>|
            #![trigger spells(letters, word), is_digits(digits)]
            spells(letters, word) && is_digits(digits) && mark == letters + seq!['['] + digits
                + seq![']'];
        lemma_spells(letters, word);
        assert(l.take(n) =~= crate::text::lower(letters));
        assert(l[n] == crate::text::lower_char(mark[n]));
        assert(l.last() == crate::text::lower_char(mark.last()));
        assert forall|i: int| n < i < l.len() - 1 implies '0' <= #[trigger] l[i] <= '9' by {
            assert(mark[i] == digits[i - n - 1]);
        }
        assert(crate::subject::is_counted(l, word));
    }
    if crate::subject::is_counted(l, word) {
        let letters = mark.take(n);
        let digits = mark.subrange(n + 1, mark.len() - 1);
        assert(crate::text::lower(letters) =~= l.take(n));
        lemma_spells(letters, word);
        assert(l[n] == crate::text::lower_char(mark[n]));
        assert(l[l.len() - 1] == crate::text::lower_char(mark[l.len() - 1]));
        assert forall|i: int| 0 <= i < digits.len() implies '0' <= #[trigger] digits[i] <= '9' by {
            assert('0' <= l[n + 1 + i] <= '9');
            assert(l[n + 1 + i] == crate::text::lower_char(mark[n + 1 + i]));
        }
        assert(mark =~= letters + seq!['['] + digits + seq![']']);
        assert(spells(letters, word) && is_digits(digits));
    }
}

proof fn lemma_is_mark(mark: Seq<char>)
    ensures
        is_mark(mark) <==> crate::subject::is_reply_prefix(mark),
{
    reveal_strlit("re");
    reveal_strlit("fwd");
    reveal_strlit("fw");
    reveal_strlit("aw");
    reveal_strlit("sv");
    reveal_strlit("vs");
    lemma_marks(mark, "re"@);
    lemma_marks(mark, "fwd"@);
    lemma_marks(mark, "fw"@);
    lemma_marks(mark, "aw"@);
    lemma_marks(mark, "sv"@);
    lemma_marks(mark, "vs"@);
}

/// A mark and a colon in front of a subject do not change what becomes of it.
pub proof fn lemma_mark_is_ignored(mark: Seq<char>, s: &str, t: &str, x: String, y: String)
    requires
        is_mark(mark),
        t@ == mark + seq![':'] + s@,
        call_ensures(normalize_subject, (s,), x),
        call_ensures(normalize_subject, (t,), y),
    ensures
        x@ == y@,
{
    lemma_is_mark(mark);
    crate::subject::lemma_reply_prefix_is_ignored(mark, s@);
}

/// A number in brackets in front of a subject does not change what becomes of it.
pub proof fn lemma_number_is_ignored(digits: Seq<char>, s: &str, t: &str, x: String, y: String)
    requires
        digits.len() > 0,
        is_digits(digits),
        t@ == seq!['['] + digits + seq![']'] + s@,
        call_ensures(normalize_subject, (s,), x),
        call_ensures(normalize_subject, (t,), y),
    ensures
        x@ == y@,
{
    let count = seq!['['] + digits + seq![']'];
    assert forall|i: int| 0 < i < count.len() - 1 implies '0' <= #[trigger] count[i] <= '9' by {
        assert(count[i] == digits[i - 1]);
    }
    crate::subject::lemma_is_count(count, count.len() as int);
    crate::subject::lemma_count_is_ignored(count, s@);
}

/// White space around a subject does not change what becomes of it.
pub proof fn lemma_space_around_is_ignored(
    front: Seq<char>,
    back: Seq<char>,
    s: &str,
    t: &str,
    x: String,
    y: String,
)
    requires
        crate::signing_laws::is_blank(front),
        crate::signing_laws::is_blank(back),
        t@ == front + s@ + back,
        call_ensures(normalize_subject, (s,), x),
        call_ensures(normalize_subject, (t,), y),
    ensures
        x@ == y@,
{
    let (a, b) = crate::signing_laws::lemma_trim_parts(s@);
    let m = crate::text::trim(s@);
    let f = front + a;
    let k = b + back;
    assert forall|i: int| 0 <= i < f.len() implies crate::text::white_space(#[trigger] f[i]) by {
        if i < front.len() {
            assert(f[i] == front[i]);
        } else {
            assert(f[i] == a[i - front.len()]);
        }
    }
    assert forall|i: int| 0 <= i < k.len() implies crate::text::white_space(#[trigger] k[i]) by {
        if i < b.len() {
            assert(k[i] == b[i]);
        } else {
            assert(k[i] == back[i - b.len()]);
        }
    }
    crate::signing_laws::lemma_trim_between(f, m, k);
    assert(t@ =~= f + m + k);
}

/// What becomes of a subject becomes itself.
pub proof fn lemma_twice_is_once(s: &str, x: String, t: &str, y: String)
    requires
        call_ensures(normalize_subject, (s,), x),
        t@ == x@,
        call_ensures(normalize_subject, (t,), y),
    ensures
        y@ == x@,
{
    crate::subject::lemma_normalized_twice(s@);
}

/// Whether the text is one word.
pub open spec fn is_word(s: Seq<char>) -> bool {
    s.len() > 0 && forall|i: int| 0 <= i < s.len() ==> !crate::text::white_space(#[trigger] s[i])
}

/// The words with the gaps in front of each.
pub open spec fn laid_out(words: Seq<Seq<char>>, gaps: Seq<Seq<char>>) -> Seq<char>
    decreases words.len(),
{
    if words.len() == 0 {
        Seq::empty()
    } else {
        laid_out(words.drop_last(), gaps.drop_last()) + gaps.last() + words.last()
    }
}

/// The words with one space between each two.
pub open spec fn spaced(words: Seq<Seq<char>>) -> Seq<char>
    decreases words.len(),
{
    if words.len() == 0 {
        Seq::empty()
    } else if words.len() == 1 {
        words[0]
    } else {
        spaced(words.drop_last()) + seq![' '] + words.last()
    }
}

/// Whether these are words and the gaps in front of them: white space between each two, and none in
/// front of the first.
pub open spec fn is_layout(words: Seq<Seq<char>>, gaps: Seq<Seq<char>>) -> bool {
    &&& words.len() == gaps.len()
    &&& forall|i: int| 0 <= i < words.len() ==> is_word(#[trigger] words[i])
    &&& forall|i: int|
        0 <= i < gaps.len() ==> crate::signing_laws::is_blank(#[trigger] gaps[i]) && (
        gaps[i].len() == 0 <==> i == 0)
}

proof fn lemma_squeezed_gap(s: Seq<char>, gap: Seq<char>)
    requires
        crate::signing_laws::is_blank(gap),
    ensures
        crate::subject::squeezed(s + gap) == crate::subject::squeezed(s),
    decreases gap.len(),
{
    if gap.len() == 0 {
        assert(s + gap =~= s);
    } else {
        let less = gap.drop_last();
        assert forall|i: int| 0 <= i < less.len() implies crate::text::white_space(
            #[trigger] less[i],
        ) by {
            assert(less[i] == gap[i]);
        }
        lemma_squeezed_gap(s, less);
        assert((s + gap).drop_last() =~= s + less);
        assert((s + gap).last() == gap[gap.len() - 1]);
    }
}

proof fn lemma_squeezed_word(s: Seq<char>, gap: Seq<char>, word: Seq<char>)
    requires
        is_word(word),
        crate::signing_laws::is_blank(gap),
        s.len() > 0,
        gap.len() > 0,
        crate::subject::squeezed(s).len() > 0,
    ensures
        crate::subject::squeezed(s + gap + word) == crate::subject::squeezed(s) + seq![' '] + word,
    decreases word.len(),
{
    let front = crate::subject::squeezed(s);
    let all = s + gap + word;
    let less = word.drop_last();
    assert(all.drop_last() =~= s + gap + less);
    assert(all.last() == word[word.len() - 1]);
    lemma_squeezed_gap(s, gap);
    if less.len() == 0 {
        assert(s + gap + less =~= s + gap);
        assert(all[all.len() - 2] == gap[gap.len() - 1]);
        assert(front.push(' ').push(word.last()) =~= front + seq![' '] + word);
    } else {
        assert forall|i: int| 0 <= i < less.len() implies !crate::text::white_space(
            #[trigger] less[i],
        ) by {
            assert(less[i] == word[i]);
        }
        lemma_squeezed_word(s, gap, less);
        assert(all[all.len() - 2] == word[word.len() - 2]);
        assert((front + seq![' '] + less).push(word.last()) =~= front + seq![' '] + word);
    }
}

proof fn lemma_squeezed_first(word: Seq<char>)
    requires
        is_word(word),
    ensures
        crate::subject::squeezed(word) == word,
    decreases word.len(),
{
    let less = word.drop_last();
    assert(word.last() == word[word.len() - 1]);
    assert(less.push(word.last()) =~= word);
    if less.len() > 0 {
        assert forall|i: int| 0 <= i < less.len() implies !crate::text::white_space(
            #[trigger] less[i],
        ) by {
            assert(less[i] == word[i]);
        }
        lemma_squeezed_first(less);
        assert(!crate::text::white_space(word[word.len() - 2]));
    }
    assert(crate::subject::squeezed(less) == less);
}

proof fn lemma_squeezed_layout(words: Seq<Seq<char>>, gaps: Seq<Seq<char>>)
    requires
        is_layout(words, gaps),
    ensures
        crate::subject::squeezed(laid_out(words, gaps)) == spaced(words),
        words.len() > 0 ==> laid_out(words, gaps).len() > 0 && spaced(words).len() > 0,
        words.len() > 0 ==> !crate::text::white_space(laid_out(words, gaps)[0]),
        words.len() > 0 ==> !crate::text::white_space(laid_out(words, gaps).last()),
    decreases words.len(),
{
    if words.len() > 0 {
        let w = words.drop_last();
        let g = gaps.drop_last();
        let n = words.len() - 1;
        assert(is_word(words[n]));
        assert(crate::signing_laws::is_blank(gaps[n]));
        let s = laid_out(w, g);
        if n == 0 {
            assert(s =~= Seq::<char>::empty());
            assert(laid_out(words, gaps) =~= words[0]);
            lemma_squeezed_first(words[0]);
        } else {
            assert forall|i: int| 0 <= i < w.len() implies is_word(#[trigger] w[i]) by {
                assert(w[i] == words[i]);
            }
            assert forall|i: int| 0 <= i < g.len() implies crate::signing_laws::is_blank(
                #[trigger] g[i],
            ) && (g[i].len() == 0 <==> i == 0) by {
                assert(g[i] == gaps[i]);
            }
            lemma_squeezed_layout(w, g);
            lemma_squeezed_word(s, gaps[n], words[n]);
            assert(laid_out(words, gaps)[0] == s[0]);
        }
        assert(laid_out(words, gaps).last() == words[n][words[n].len() - 1]);
    }
}

/// Whether a mark with a colon stands in front of the text.
pub open spec fn has_mark(s: Seq<char>) -> bool {
    exists|k: int| 0 <= k < s.len() && s[k] == ':' && is_mark(#[trigger] s.take(k))
}

/// Whether a number in brackets stands in front of the text.
pub open spec fn has_number(s: Seq<char>) -> bool {
    exists|n: int|
        3 <= n <= s.len() && s[0] == '[' && s[n - 1] == ']' && is_digits(
            #[trigger] s.subrange(1, n - 1),
        )
}

/// A subject without a mark or a number in front keeps all its words in their order. They come out in
/// small letters, with one space between each two, and with nothing around them.
pub proof fn lemma_words_are_kept(
    words: Seq<Seq<char>>,
    gaps: Seq<Seq<char>>,
    front: Seq<char>,
    back: Seq<char>,
    s: &str,
    r: String,
)
    requires
        is_layout(words, gaps),
        crate::signing_laws::is_blank(front),
        crate::signing_laws::is_blank(back),
        s@ == front + laid_out(words, gaps) + back,
        !has_mark(laid_out(words, gaps)),
        !has_number(laid_out(words, gaps)),
        call_ensures(normalize_subject, (s,), r),
    ensures
        r@.len() == spaced(words).len(),
        forall|i: int|
            0 <= i < r@.len() ==> {
                let c = spaced(words)[i];
                #[trigger] r@[i] as int == if 'A' <= c <= 'Z' {
                    c as int + 32
                } else {
                    c as int
                }
            },
{
    let t = laid_out(words, gaps);
    lemma_squeezed_layout(words, gaps);
    crate::signing_laws::lemma_trim_between(front, t, back);
    crate::subject::lemma_colon_bounds(t);
    let k = crate::subject::colon(t);
    if k < t.len() {
        assert(t[k] == ':');
        lemma_is_mark(t.take(k));
        assert(!is_mark(t.take(k)));
    }
    if crate::subject::count_len(t) > 0 {
        crate::subject::lemma_count(t);
        let n = crate::subject::count_len(t);
        let d = t.subrange(1, n - 1);
        assert forall|i: int| 0 <= i < d.len() implies '0' <= #[trigger] d[i] <= '9' by {
            assert('0' <= t[i + 1] <= '9');
        }
        assert(is_digits(t.subrange(1, n - 1)));
    }
    assert(crate::subject::strip_all(t) == t);
    assert(r@ == crate::text::lower(spaced(words)));
}

/// A capital becomes its small letter, and every other character stays.
pub proof fn lemma_lowering(c: char, r: char)
    requires
        call_ensures(lower_of, (c,), r),
    ensures
        'A' <= c <= 'Z' ==> r as int == c as int + 32,
        !('A' <= c <= 'Z') ==> r == c,
{
}

/// Trimming takes the white space around a text away and nothing else.
pub proof fn lemma_trimming(front: Seq<char>, t: Seq<char>, back: Seq<char>, s: &str, r: Vec<char>)
    requires
        crate::signing_laws::is_blank(front),
        crate::signing_laws::is_blank(back),
        t.len() > 0 ==> !crate::text::white_space(t[0]) && !crate::text::white_space(t.last()),
        s@ == front + t + back,
        call_ensures(trimmed, (s,), r),
    ensures
        r@ == t,
{
    crate::signing_laws::lemma_trim_between(front, t, back);
}

/// White space is a tab, a line break, a space, and what Unicode counts among these.
pub proof fn lemma_white_space(c: char, r: bool)
    requires
        call_ensures(is_white_space, (c,), r),
    ensures
        r == {
            let n = c as u32;
            ||| 9 <= n <= 13
            ||| n == 32
            ||| n == 0x85
            ||| n == 0xa0
            ||| n == 0x1680
            ||| 0x2000 <= n <= 0x200a
            ||| 0x2028 <= n <= 0x2029
            ||| n == 0x202f
            ||| n == 0x205f
            ||| n == 0x3000
        },
{
}

} // verus!
