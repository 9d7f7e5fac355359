use ce_mail::attachment::Attachment;
use ce_mail::error::{Format, MailError};

#[test]
fn attachment_encode_decode_roundtrip() {
    let a = Attachment::new("a.bin", "application/octet-stream", vec![1, 2, 3, 4]);
    let back = Attachment::decode(&a.encode().unwrap()).unwrap();
    assert_eq!(a, back);
}

#[test]
fn from_file_guesses_type() {
    assert_eq!(Attachment::from_file("report.pdf", vec![]).content_type, "application/pdf");
    assert_eq!(Attachment::from_file("photo.JPG", vec![]).content_type, "image/jpeg");
    assert_eq!(Attachment::from_file("notes.txt", vec![]).content_type, "text/plain");
    assert_eq!(Attachment::from_file("data", vec![]).content_type, "application/octet-stream");
}

#[test]
fn len_and_is_empty() {
    assert!(Attachment::new("e", "text/plain", vec![]).is_empty());
    assert_eq!(Attachment::new("n", "text/plain", vec![9; 5]).len(), 5);
}

#[test]
fn attachment_decode_rejects_garbage() {
    assert!(Attachment::decode(&[0xff, 0x00, 0x12]).is_err());
}

#[test]
fn attachment_encodes_as_length_prefixed_fields() {
    let a = Attachment::new("n\u{e9}", "t", vec![7, 8]);
    let mut expected: Vec<u8> = Vec::new();
    expected.extend_from_slice(&[3, 0, 0, 0, 0, 0, 0, 0, b'n', 0xc3, 0xa9]);
    expected.extend_from_slice(&[1, 0, 0, 0, 0, 0, 0, 0, b't']);
    expected.extend_from_slice(&[2, 0, 0, 0, 0, 0, 0, 0, 7, 8]);
    assert_eq!(a.encode().unwrap(), expected);
}

#[test]
fn attachment_decode_ignores_what_follows_and_refuses_a_short_text() {
    let a = Attachment::new("a", "b", vec![1]);
    let mut bytes = a.encode().unwrap();
    let whole = bytes.len();
    bytes.push(99);
    assert_eq!(Attachment::decode(&bytes).unwrap(), a);
    for n in 0..whole {
        assert_eq!(
            Attachment::decode(&bytes[..n]).err(),
            Some(MailError::Malformed(Format::Attachment))
        );
    }
}

#[test]
fn attachment_decode_refuses_text_that_is_not_utf8() {
    let mut bytes = Attachment::new("a", "b", vec![1]).encode().unwrap();
    bytes[8] = 0xff;
    assert!(Attachment::decode(&bytes).is_err());
}

#[test]
fn every_known_extension_has_its_type() {
    let expected = [
        ("a.txt", "text/plain"),
        ("a.log", "text/plain"),
        ("a.md", "text/plain"),
        ("a.b.HTML", "text/html"),
        ("a.htm", "text/html"),
        (".json", "application/json"),
        ("a.pdf", "application/pdf"),
        ("pdf", "application/octet-stream"),
        ("TXT", "application/octet-stream"),
        ("a.Png", "image/png"),
        ("a.jpg", "image/jpeg"),
        ("a.jpeg", "image/jpeg"),
        ("a.gif", "image/gif"),
        ("a.zip", "application/zip"),
        ("a.csv", "text/csv"),
        ("a.wasm", "application/wasm"),
        ("x.", "application/octet-stream"),
        ("", "application/octet-stream"),
        ("dir.txt/name", "application/octet-stream"),
    ];
    for (name, kind) in expected {
        assert_eq!(Attachment::from_file(name, vec![]).content_type, kind, "{name}");
    }
}
