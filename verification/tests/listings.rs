use ce_mail::client::Message;
use ce_mail::envelope::{Envelope, EnvelopeBody};
use ce_mail::listing::{
    cursor_text, find_by_prefix, grant_expiry, inbox_line, parse_cursor, truncate, DAY_SECS,
};
use ce_mail::persist::temp_name;

fn message(from: &str, subject: &str, sealed: Option<&str>) -> Message {
    let body = EnvelopeBody {
        from: from.into(),
        to: "t".into(),
        subject: subject.into(),
        body_cid: String::new(),
        attachment_cids: vec![],
        in_reply_to: String::new(),
        sent_at: 1,
        postage_receipt: String::new(),
    };
    Message {
        envelope: Envelope { body, sig: [0; 64] },
        body: vec![],
        sealed_subject: sealed.map(|s| s.to_string()),
    }
}

#[test]
fn a_grant_lasts_for_days_and_forever_if_for_none() {
    assert_eq!(grant_expiry(1000, 0), 0);
    assert_eq!(grant_expiry(1000, 2), 1000 + 2 * DAY_SECS);
}

#[test]
fn long_texts_are_cut_with_an_ellipsis() {
    assert_eq!(truncate("abcdef", 6), "abcdef");
    assert_eq!(truncate("abcdef", 5), "abcde\u{2026}");
    assert_eq!(truncate("\u{e9}x", 2), "\u{e9}\u{2026}");
    assert_eq!(truncate("", 0), "");
}

#[test]
fn cursors_are_read_back_and_anything_else_is_zero() {
    for c in [0usize, 1, 42, usize::MAX] {
        assert_eq!(parse_cursor(&cursor_text(c)), c);
        assert_eq!(cursor_text(c), c.to_string());
    }
    for (text, expected) in [
        (" 7\n", 7),
        ("+7", 7),
        ("", 0),
        ("+", 0),
        ("-1", 0),
        ("7x", 0),
        ("007", 7),
        ("18446744073709551616", 0),
    ] {
        assert_eq!(parse_cursor(text), expected, "{text}");
    }
}

#[test]
fn the_first_id_with_the_prefix_is_found() {
    let ids = vec!["abc".to_string(), "abd".to_string(), "b".to_string()];
    assert_eq!(find_by_prefix(&ids, "ab"), Some(0));
    assert_eq!(find_by_prefix(&ids, "abd"), Some(1));
    assert_eq!(find_by_prefix(&ids, "abde"), None);
    assert_eq!(find_by_prefix(&ids, ""), Some(0));
    assert_eq!(find_by_prefix(&vec![], ""), None);
}

#[test]
fn a_line_shows_id_sender_and_subject() {
    let m = message("0123456789abcdef", "clear", None);
    let id = m.id();
    assert_eq!(inbox_line(&m), format!("{}  0123456789ab\u{2026}  clear", &id[..16]));
    let m = message("short", "clear", Some("sealed"));
    let id = m.id();
    assert_eq!(inbox_line(&m), format!("{}  short  sealed", &id[..16]));
}

#[test]
fn a_file_is_written_under_a_hidden_name_first() {
    assert_eq!(temp_name(Some("mb.bin"), 4294967295), ".mb.bin.tmp.4294967295");
    assert_eq!(temp_name(None, 0), ".store.tmp.0");
}
