//! What the small operations on files, numbers and lines of a listing come to, said of calls and what
//! they give.

use crate::attachment::Attachment;
use crate::client::Message;
use crate::error::{Format, MailError};
use crate::listing::{
    cursor_text, find_by_prefix, grant_expiry, inbox_line, parse_cursor, truncate,
};
use crate::persist::temp_name;
use vstd::prelude::*;

verus! {

/// Whether the file name ends in a dot and these letters, in whatever case.
pub open spec fn ends_in(name: Seq<char>, ext: Seq<char>) -> bool {
    exists|stem: Seq<char>, letters: Seq<char>|
        name == #[trigger] (stem + seq!['.'] + letters) && crate::subject_laws::spells(letters, ext)
}

proof fn lemma_after_last_dot(stem: Seq<char>, letters: Seq<char>)
    requires
        !letters.contains('.'),
    ensures
        crate::attachment::after_last_dot(stem + seq!['.'] + letters) == letters,
    decreases letters.len(),
{
    let s = stem + seq!['.'] + letters;
    if letters.len() == 0 {
        assert(s.last() == '.');
        assert(letters =~= Seq::<char>::empty());
    } else {
        let less = letters.drop_last();
        assert(letters.contains(letters[letters.len() - 1]));
        assert(s.last() == letters[letters.len() - 1]);
        assert(s.drop_last() =~= stem + seq!['.'] + less);
        if less.contains('.') {
            let i = choose|i: int| 0 <= i < less.len() && less[i] == '.';
            assert(letters[i] == '.');
        }
        lemma_after_last_dot(stem, less);
        assert(less.push(letters.last()) =~= letters);
    }
}

proof fn lemma_last_dot(s: Seq<char>) -> (stem: Seq<char>)
    requires
        s.contains('.'),
    ensures
        s == stem + seq!['.'] + crate::attachment::after_last_dot(s),
    decreases s.len(),
{
    if s.last() == '.' {
        let stem = s.drop_last();
        assert(s =~= stem + seq!['.'] + crate::attachment::after_last_dot(s));
        stem
    } else {
        let less = s.drop_last();
        let i = choose|i: int| 0 <= i < s.len() && s[i] == '.';
        assert(less[i] == '.');
        let stem = lemma_last_dot(less);
        assert(s =~= less.push(s.last()));
        assert(s =~= stem + seq!['.'] + crate::attachment::after_last_dot(less).push(s.last()));
        stem
    }
}

proof fn lemma_ends_in(name: Seq<char>, ext: Seq<char>)
    requires
        ext.len() > 0,
        forall|i: int| 0 <= i < ext.len() ==> 'a' <= #[trigger] ext[i] <= 'z',
    ensures
        ends_in(name, ext) <==> crate::text::lower(crate::attachment::extension_of(name)) == ext,
{
    if ends_in(name, ext) {
        let (stem, letters) = choose|stem: Seq<char>, letters: Seq<char>|
            name == #[trigger] (stem + seq!['.'] + letters) && crate::subject_laws::spells(
                letters,
                ext,
            );
        crate::subject_laws::lemma_spells(letters, ext);
        if letters.contains('.') {
            let i = choose|i: int| 0 <= i < letters.len() && letters[i] == '.';
            assert(crate::text::lower(letters)[i] == '.');
        }
        lemma_after_last_dot(stem, letters);
        assert(name[stem.len() as int] == '.');
    }
    if crate::text::lower(crate::attachment::extension_of(name)) == ext {
        let letters = crate::attachment::extension_of(name);
        crate::subject_laws::lemma_spells(letters, ext);
        assert(letters.len() > 0);
        let stem = lemma_last_dot(name);
        assert(name == stem + seq!['.'] + letters);
    }
}

/// An attachment made of a file keeps its name and its bytes, and its type follows from the letters
/// behind the last dot of its name, in whatever case. Where they say nothing it is just bytes.
pub proof fn lemma_type_follows_name(name: &str, bytes: Vec<u8>, r: Attachment)
    requires
        call_ensures(Attachment::from_file, (name, bytes), r),
    ensures
        r.filename@ == name@,
        r.bytes@ == bytes@,
        ends_in(name@, "txt"@) || ends_in(name@, "log"@) || ends_in(name@, "md"@)
            ==> r.content_type@ == "text/plain"@,
        ends_in(name@, "html"@) || ends_in(name@, "htm"@) ==> r.content_type@ == "text/html"@,
        ends_in(name@, "json"@) ==> r.content_type@ == "application/json"@,
        ends_in(name@, "pdf"@) ==> r.content_type@ == "application/pdf"@,
        ends_in(name@, "png"@) ==> r.content_type@ == "image/png"@,
        ends_in(name@, "jpg"@) || ends_in(name@, "jpeg"@) ==> r.content_type@ == "image/jpeg"@,
        ends_in(name@, "gif"@) ==> r.content_type@ == "image/gif"@,
        ends_in(name@, "zip"@) ==> r.content_type@ == "application/zip"@,
        ends_in(name@, "csv"@) ==> r.content_type@ == "text/csv"@,
        ends_in(name@, "wasm"@) ==> r.content_type@ == "application/wasm"@,
        !(ends_in(name@, "txt"@) || ends_in(name@, "log"@) || ends_in(name@, "md"@) || ends_in(
            name@,
            "html"@,
        ) || ends_in(name@, "htm"@) || ends_in(name@, "json"@) || ends_in(name@, "pdf"@)
            || ends_in(name@, "png"@) || ends_in(name@, "jpg"@) || ends_in(name@, "jpeg"@)
            || ends_in(name@, "gif"@) || ends_in(name@, "zip"@) || ends_in(name@, "csv"@)
            || ends_in(name@, "wasm"@)) ==> r.content_type@ == "application/octet-stream"@,
{
    reveal_strlit("txt");
    reveal_strlit("log");
    reveal_strlit("md");
    reveal_strlit("html");
    reveal_strlit("htm");
    reveal_strlit("json");
    reveal_strlit("pdf");
    reveal_strlit("png");
    reveal_strlit("jpg");
    reveal_strlit("jpeg");
    reveal_strlit("gif");
    reveal_strlit("zip");
    reveal_strlit("csv");
    reveal_strlit("wasm");
    assert("txt"@[1] != "log"@[1] && "md"@.len() != "txt"@.len());
    lemma_ends_in(name@, "txt"@);
    lemma_ends_in(name@, "log"@);
    lemma_ends_in(name@, "md"@);
    lemma_ends_in(name@, "html"@);
    lemma_ends_in(name@, "htm"@);
    lemma_ends_in(name@, "json"@);
    lemma_ends_in(name@, "pdf"@);
    lemma_ends_in(name@, "png"@);
    lemma_ends_in(name@, "jpg"@);
    lemma_ends_in(name@, "jpeg"@);
    lemma_ends_in(name@, "gif"@);
    lemma_ends_in(name@, "zip"@);
    lemma_ends_in(name@, "csv"@);
    lemma_ends_in(name@, "wasm"@);
    let e = crate::text::lower(crate::attachment::extension_of(name@));
    if e == "txt"@ || e == "log"@ || e == "md"@ {
        assert(e[0] == 't' || e[0] == 'l' || e[0] == 'm');
    } else if e == "html"@ || e == "htm"@ {
        assert(e[0] == 'h');
    } else if e == "json"@ {
        assert(e[0] == 'j' && e[1] == 's');
    } else if e == "pdf"@ {
        assert(e[0] == 'p' && e[1] == 'd');
    } else if e == "png"@ {
        assert(e[0] == 'p' && e[1] == 'n');
    } else if e == "jpg"@ || e == "jpeg"@ {
        assert(e[0] == 'j' && e[1] == 'p');
    } else if e == "gif"@ {
        assert(e[0] == 'g');
    } else if e == "zip"@ {
        assert(e[0] == 'z');
    } else if e == "csv"@ {
        assert(e[0] == 'c');
    } else if e == "wasm"@ {
        assert(e[0] == 'w');
    }
}

/// An attachment is what it is made of, and counts its bytes.
pub proof fn lemma_attachment_is_made_of(
    name: &str,
    content_type: &str,
    bytes: Vec<u8>,
    a: Attachment,
    n: usize,
    none: bool,
)
    requires
        call_ensures(Attachment::new, (name, content_type, bytes), a),
        call_ensures(Attachment::len, (&a,), n),
        call_ensures(Attachment::is_empty, (&a,), none),
    ensures
        a.filename@ == name@,
        a.content_type@ == content_type@,
        a.bytes@ == bytes@,
        n == bytes@.len(),
        none == (bytes@.len() == 0),
{
}

/// An attachment is written as its name, its type and its bytes, each with its length in front. It
/// reads back as what was written, whatever follows, and from nothing less.
pub proof fn lemma_attachment_reads_back(
    a: &Attachment,
    encoded: Result<Vec<u8>, MailError>,
    bytes: &[u8],
    r: Result<Attachment, MailError>,
)
    requires
        call_ensures(Attachment::encode, (a,), encoded),
        call_ensures(Attachment::decode, (bytes,), r),
    ensures
        encoded matches Ok(b) && b@ == crate::wire::text_bytes(a.filename@)
            + crate::wire::text_bytes(a.content_type@) + crate::wire::le64(a.bytes@.len() as u64)
            + a.bytes@,
        encoded->Ok_0@.is_prefix_of(bytes@) ==> (r matches Ok(back) && back.filename@ == a.filename@
            && back.content_type@ == a.content_type@ && back.bytes@ == a.bytes@),
        bytes@.is_prefix_of(encoded->Ok_0@) && bytes@ != encoded->Ok_0@ ==> r == Err::<
            Attachment,
            MailError,
        >(MailError::Malformed(Format::Attachment)),
        r matches Ok(back) && back.filename@ == a.filename@ && back.content_type@ == a.content_type@
            && back.bytes@ == a.bytes@ ==> encoded->Ok_0@.is_prefix_of(bytes@),
{
    crate::wire::lemma_bytes_of_bytes(a.bytes@);
    let b = encoded->Ok_0@;
    assert(b =~= crate::wire::text_bytes(a.filename@) + crate::wire::text_bytes(a.content_type@)
        + crate::wire::le64(a.bytes@.len() as u64) + a.bytes@);
    crate::signing_laws::lemma_reads_exactly::<Attachment>(a@, b, bytes@);
    if let Ok(back) = r {
        if back.filename@ == a.filename@ && back.content_type@ == a.content_type@ && back.bytes@
            == a.bytes@ {
            assert(back@ =~= a@);
        }
    }
}

/// A grant for no days never ends; any other ends that many days of 86400 seconds from now.
pub proof fn lemma_grant_ends(now: u64, days: u64, r: u64)
    requires
        call_ensures(grant_expiry, (now, days), r),
    ensures
        days == 0 ==> r == 0,
        days > 0 ==> r == now + days * 86400,
{
}

/// A text of at most `n` bytes stays. Of a longer one the first `n` bytes stay, and an ellipsis stands
/// behind them.
pub proof fn lemma_long_text_is_cut(s: &str, n: usize, r: String)
    requires
        call_ensures(truncate, (s, n), r),
    ensures
        vstd::utf8::encode_utf8(s@).len() <= n ==> r@ == s@,
        vstd::utf8::encode_utf8(s@).len() > n ==> r@.len() > 0 && r@.last() as u32 == 0x2026
            && vstd::utf8::encode_utf8(r@.drop_last()) == vstd::utf8::encode_utf8(s@).take(
            n as int,
        ),
{
}

/// A number is written as the number without its last digit, if there is one, and its last digit.
pub proof fn lemma_cursor_is_written_in_digits(n: usize, more: usize, x: String, y: String)
    requires
        call_ensures(cursor_text, (n,), x),
        more / 10 == n,
        call_ensures(cursor_text, (more,), y),
    ensures
        n == 0 ==> y@.len() == 1 && y@[0] as int == 48 + more,
        n > 0 ==> y@.drop_last() == x@ && y@.len() == x@.len() + 1 && y@.last() as int == 48 + more
            % 10,
{
    if n > 0 {
        assert(y@.drop_last() =~= x@);
    }
}

/// A saved cursor reads back, with white space around it, with a plus sign and with zeros in front.
pub proof fn lemma_cursor_reads_back(
    n: usize,
    x: String,
    front: Seq<char>,
    back: Seq<char>,
    plus: bool,
    zeros: Seq<char>,
    s: &str,
    r: usize,
)
    requires
        call_ensures(cursor_text, (n,), x),
        crate::signing_laws::is_blank(front),
        crate::signing_laws::is_blank(back),
        forall|i: int| 0 <= i < zeros.len() ==> #[trigger] zeros[i] == '0',
        s@ == front + ((if plus {
            seq!['+']
        } else {
            Seq::empty()
        }) + zeros + x@) + back,
        call_ensures(parse_cursor, (s,), r),
    ensures
        r == n,
{
    crate::listing::lemma_decimal_is_number(n as nat);
    let sign = if plus {
        seq!['+']
    } else {
        Seq::empty()
    };
    let digits = zeros + x@;
    let t = sign + zeros + x@;
    assert(t.last() == x@[x@.len() - 1]);
    if !plus && zeros.len() > 0 {
        assert(t[0] == zeros[0]);
    } else if !plus {
        assert(t[0] == x@[0]);
    }
    crate::signing_laws::lemma_trim_between(front, t, back);
    assert(crate::listing::unsigned(t) =~= digits);
    lemma_zeros_count_for_nothing(zeros, x@);
    assert forall|i: int| 0 <= i < digits.len() implies '0' <= #[trigger] digits[i] <= '9' by {
        if i < zeros.len() {
            assert(digits[i] == zeros[i]);
        } else {
            assert(digits[i] == x@[i - zeros.len()]);
        }
    }
}

proof fn lemma_zeros_count_for_nothing(zeros: Seq<char>, s: Seq<char>)
    requires
        forall|i: int| 0 <= i < zeros.len() ==> #[trigger] zeros[i] == '0',
    ensures
        crate::listing::number(zeros + s) == crate::listing::number(s),
    decreases zeros.len() + s.len(),
{
    if s.len() > 0 {
        assert((zeros + s).drop_last() =~= zeros + s.drop_last());
        assert((zeros + s).last() == s[s.len() - 1]);
        lemma_zeros_count_for_nothing(zeros, s.drop_last());
    } else if zeros.len() > 0 {
        let less = zeros.drop_last();
        assert((zeros + s).drop_last() =~= less + s);
        assert((zeros + s).last() == zeros[zeros.len() - 1]);
        assert forall|i: int| 0 <= i < less.len() implies #[trigger] less[i] == '0' by {
            assert(less[i] == zeros[i]);
        }
        lemma_zeros_count_for_nothing(less, s);
    } else {
        assert(zeros + s =~= s);
    }
}

/// What is saved is no cursor, and counts as the start, where it is a number too large for one.
pub proof fn lemma_large_cursor_is_start(
    m: nat,
    front: Seq<char>,
    back: Seq<char>,
    plus: bool,
    s: &str,
    r: usize,
)
    requires
        m > usize::MAX,
        crate::signing_laws::is_blank(front),
        crate::signing_laws::is_blank(back),
        s@ == front + ((if plus {
            seq!['+']
        } else {
            Seq::empty()
        }) + crate::text::decimal(m)) + back,
        call_ensures(parse_cursor, (s,), r),
    ensures
        r == 0,
{
    let x = crate::text::decimal(m);
    crate::listing::lemma_decimal_is_number(m);
    let sign = if plus {
        seq!['+']
    } else {
        Seq::empty()
    };
    let t = sign + x;
    assert(t.last() == x[x.len() - 1]);
    if !plus {
        assert(t[0] == x[0]);
    }
    crate::signing_laws::lemma_trim_between(front, t, back);
    assert(crate::listing::unsigned(t) =~= x);
}

/// What is saved is no cursor, and counts as the start, where it is anything but digits with a plus
/// sign in front of them or none.
pub proof fn lemma_no_cursor_is_start(
    front: Seq<char>,
    t: Seq<char>,
    back: Seq<char>,
    at: int,
    s: &str,
    r: usize,
)
    requires
        crate::signing_laws::is_blank(front),
        crate::signing_laws::is_blank(back),
        t.len() > 0 ==> !crate::text::white_space(t[0]) && !crate::text::white_space(t.last()),
        s@ == front + t + back,
        t.len() == 0 || t == seq!['+'] || (0 <= at < t.len() && !('0' <= t[at] <= '9') && (at > 0
            || t[at] != '+')),
        call_ensures(parse_cursor, (s,), r),
    ensures
        r == 0,
{
    crate::signing_laws::lemma_trim_between(front, t, back);
    let d = crate::listing::unsigned(t);
    if t == seq!['+'] {
        assert(d.len() == 0);
    } else if t.len() > 0 {
        if t[0] == '+' {
            assert(d[at - 1] == t[at]);
        } else {
            assert(d[at] == t[at]);
        }
    }
}

/// What is found by a prefix is the first of the ids that starts with it, if any does.
pub proof fn lemma_first_with_prefix_is_found(ids: &Vec<String>, prefix: &str, r: Option<usize>)
    requires
        call_ensures(find_by_prefix, (ids, prefix), r),
    ensures
        forall|k: int|
            0 <= k < ids@.len() && prefix@.is_prefix_of((#[trigger] ids@[k])@) ==> r is Some && r->0
                <= k,
        r matches Some(i) ==> i < ids@.len() && prefix@.is_prefix_of(ids@[i as int]@),
{
}

/// A line of the inbox is the front of the message's id, the sender, cut where it is long, and the
/// subject, with two spaces between each two.
pub proof fn lemma_line_tells(
    m: &Message,
    from: &str,
    id: String,
    sender: String,
    subject: String,
    r: String,
)
    requires
        call_ensures(inbox_line, (m,), r),
        from@ == m.envelope.body.from@,
        crate::listing::can_cut(from@, 12),
        call_ensures(Message::id, (m,), id),
        call_ensures(truncate, (from, 12), sender),
        call_ensures(Message::subject, (m,), subject),
    ensures
        r@ == id@.take(16) + seq![' ', ' '] + sender@ + seq![' ', ' '] + subject@,
{
    reveal_strlit("  ");
    assert("  "@ =~= seq![' ', ' ']);
    let shown = choose|shown: Seq<char>| #[trigger]
        crate::listing::is_truncated(shown, m@.envelope.body.from, 12) && r@
            == crate::envelope::message_id_of(m@.envelope.body).take(16) + "  "@ + shown + "  "@ + (
        match m@.sealed_subject {
            Some(s) => s,
            None => m@.envelope.body.subject,
        });
    if vstd::utf8::encode_utf8(from@).len() > 12 {
        vstd::utf8::encode_utf8_decode_utf8(shown.drop_last());
        vstd::utf8::encode_utf8_decode_utf8(sender@.drop_last());
        assert(shown =~= shown.drop_last().push(shown.last()));
        assert(sender@ =~= sender@.drop_last().push(sender@.last()));
    }
}

/// The file that is written first has a dot in front of the name of the file it is to replace, and
/// `.tmp.` and the number of the process behind it. A file without a name counts as `store`.
pub proof fn lemma_temporary_name(
    name: Option<&str>,
    pid: u32,
    process: String,
    n: usize,
    r: String,
)
    requires
        call_ensures(temp_name, (name, pid), r),
        n == pid,
        call_ensures(cursor_text, (n,), process),
    ensures
        r@ == seq!['.'] + (match name {
            Some(s) => s@,
            None => "store"@,
        }) + ".tmp."@ + process@,
{
    reveal_strlit(".");
    assert("."@ =~= seq!['.']);
}

} // verus!
