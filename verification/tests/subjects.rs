use ce_mail::text::is_white_space;
use ce_mail::thread::normalize_subject;

#[test]
fn normalize_strips_single_reply_prefix() {
    assert_eq!(normalize_subject("Re: Hello"), "hello");
    assert_eq!(normalize_subject("Fwd: Hello"), "hello");
    assert_eq!(normalize_subject("FW: Hello"), "hello");
}

#[test]
fn normalize_strips_stacked_prefixes() {
    assert_eq!(normalize_subject("Re: Re: Fwd: Project"), "project");
}

#[test]
fn normalize_strips_bracketed_count() {
    assert_eq!(normalize_subject("Re[2]: Status"), "status");
    assert_eq!(normalize_subject("RE[10]: Status"), "status");
}

#[test]
fn normalize_collapses_whitespace_and_lowercases() {
    assert_eq!(normalize_subject("  Hello   World  "), "hello world");
}

#[test]
fn normalize_leaves_plain_subject() {
    assert_eq!(normalize_subject("Quarterly review"), "quarterly review");
}

#[test]
fn normalize_does_not_strip_words_that_merely_start_with_re() {
    assert_eq!(normalize_subject("Reminder: pay rent"), "reminder: pay rent");
}

#[test]
fn normalize_rejects_malformed_bracket() {
    assert_eq!(normalize_subject("Re[x]: hi"), "re[x]: hi");
}

#[test]
fn normalize_empty_subject() {
    assert_eq!(normalize_subject(""), "");
    assert_eq!(normalize_subject("Re:"), "");
}

#[test]
fn a_count_behind_a_prefix_goes_with_it() {
    assert_eq!(normalize_subject("Re: Re: [2]  Hello   World"), "hello world");
    assert_eq!(normalize_subject("Fwd: hello world"), "hello world");
    assert_eq!(normalize_subject("Re:[12]Fwd: [3] x"), "x");
    assert_eq!(normalize_subject("Re: [2]"), "");
}

#[test]
fn a_count_in_front_is_dropped_with_or_without_a_prefix() {
    assert_eq!(normalize_subject("[2] hello"), "hello");
    assert_eq!(normalize_subject(" [2]hello [3]"), "hello [3]");
    assert_eq!(normalize_subject("Re: [2] [3] hello"), "hello");
    assert_eq!(normalize_subject("[2] Re: [3] Fwd: hello"), "hello");
    assert_eq!(normalize_subject("[2]"), "");
}

#[test]
fn what_is_no_count_stays() {
    assert_eq!(normalize_subject("Re: [x] hello"), "[x] hello");
    assert_eq!(normalize_subject("Re: [] hello"), "[] hello");
    assert_eq!(normalize_subject("Re: [2 hello"), "[2 hello");
    assert_eq!(normalize_subject("[ 2] hello"), "[ 2] hello");
}

#[test]
fn a_reply_has_the_key_of_any_parent() {
    for parent in ["", "x", "[2] x", "[2][3] x", " [x]", "Re: y", "Re[]: [1]", ": z", "re [2]: q"] {
        for prefix in ["Re:", "FWD: ", "fw[12]:\t", "Aw[]: Re:", "sv: vs:  "] {
            let reply = format!("{prefix}{parent}");
            assert_eq!(normalize_subject(&reply), normalize_subject(parent), "{reply:?}");
        }
    }
}

#[test]
fn a_bare_bracket_is_no_prefix() {
    assert_eq!(normalize_subject("Re[]: hi"), "hi");
    assert_eq!(normalize_subject("Re[2] hi"), "re[2] hi");
    assert_eq!(normalize_subject("Re : hi"), "re : hi");
}

#[test]
fn white_space_of_every_kind_is_collapsed() {
    assert_eq!(normalize_subject("\u{3000}a\u{a0}\u{2003}b\t\r\nc\u{85}"), "a b c");
}

#[test]
fn only_ascii_letters_are_lowered() {
    assert_eq!(normalize_subject("\u{c4}BC"), "\u{c4}bc");
}

#[test]
fn white_space_is_what_std_says_it_is() {
    for n in 0..=0x10ffffu32 {
        if let Some(c) = char::from_u32(n) {
            assert_eq!(is_white_space(c), c.is_whitespace(), "{n:x}");
        }
    }
}
