//! Attachments: named, typed byte payloads.
//!
//! An attachment is sealed as a whole and stored as a blob, so that its name and type are as
//! confidential as its bytes, and is fetched only when it is opened.

use crate::error::{Format, MailError};
use crate::text::{chars_of, lower_of, same_text, text_of};
use crate::wire::Wire;
use vstd::prelude::*;

verus! {

/// A named, typed byte payload.
#[derive(Debug, PartialEq, Eq)]
pub struct Attachment {
    /// The file name.
    pub filename: String,
    /// The MIME content type.
    pub content_type: String,
    /// The payload.
    pub bytes: Vec<u8>,
}

/// An attachment as mathematical values.
#[verifier::ext_equal]
pub struct AttachmentModel {
    pub filename: Seq<char>,
    pub content_type: Seq<char>,
    pub bytes: Seq<u8>,
}

impl View for Attachment {
    type V = AttachmentModel;

    open spec fn view(&self) -> AttachmentModel {
        AttachmentModel {
            filename: self.filename@,
            content_type: self.content_type@,
            bytes: self.bytes@,
        }
    }
}

impl DeepView for Attachment {
    type V = AttachmentModel;

    open spec fn deep_view(&self) -> AttachmentModel {
        self.view()
    }
}

impl Clone for Attachment {
    fn clone(&self) -> (r: Self)
        ensures
            r@ == self@,
    {
        let bytes = self.bytes.clone();
        assert(bytes@ =~= self.bytes@);
        Attachment {
            filename: self.filename.clone(),
            content_type: self.content_type.clone(),
            bytes,
        }
    }
}

impl Wire for Attachment {
    open spec fn fits(v: AttachmentModel) -> bool {
        <(String, (String, Vec<u8>))>::fits((v.filename, (v.content_type, v.bytes)))
    }

    open spec fn wire(v: AttachmentModel) -> Seq<u8> {
        <(String, (String, Vec<u8>))>::wire((v.filename, (v.content_type, v.bytes)))
    }

    open spec fn parse(b: Seq<u8>) -> Option<(AttachmentModel, Seq<u8>)> {
        match <(String, (String, Vec<u8>))>::parse(b) {
            Some(((filename, (content_type, bytes)), rest)) => Some(
                (AttachmentModel { filename, content_type, bytes }, rest),
            ),
            None => None,
        }
    }

    proof fn lemma_reads_back(v: AttachmentModel, rest: Seq<u8>) {
        <(String, (String, Vec<u8>))>::lemma_reads_back(
            (v.filename, (v.content_type, v.bytes)),
            rest,
        );
    }

    proof fn lemma_wrote(b: Seq<u8>) {
        <(String, (String, Vec<u8>))>::lemma_wrote(b);
    }

    fn put(&self, out: &mut Vec<u8>) {
        self.filename.put(out);
        self.content_type.put(out);
        self.bytes.put(out);
        assert(self.bytes.deep_view() =~= self.bytes@);
        assert(out@ =~= old(out)@ + Self::wire(self@));
    }

    fn get(bytes: &[u8]) -> (r: Option<(Attachment, usize)>) {
        match <(String, (String, Vec<u8>))>::get(bytes) {
            Some(((filename, (content_type, payload)), used)) => {
                assert(payload.deep_view() =~= payload@);
                Some((Attachment { filename, content_type, bytes: payload }, used))
            },
            None => None,
        }
    }
}

/// What follows the last dot of `s`; all of `s` if it has none.
pub open spec fn after_last_dot(s: Seq<char>) -> Seq<char>
    decreases s.len(),
{
    if s.len() == 0 || s.last() == '.' {
        Seq::empty()
    } else {
        after_last_dot(s.drop_last()).push(s.last())
    }
}

/// The extension of the file name `s`: what follows its last dot; nothing if it has no dot.
pub open spec fn extension_of(s: Seq<char>) -> Seq<char> {
    if s.contains('.') {
        after_last_dot(s)
    } else {
        Seq::empty()
    }
}

/// The content type of files with the extension `ext`, in lower case.
pub open spec fn content_type_of(ext: Seq<char>) -> Seq<char> {
    if ext == "txt"@ || ext == "log"@ || ext == "md"@ {
        "text/plain"@
    } else if ext == "html"@ || ext == "htm"@ {
        "text/html"@
    } else if ext == "json"@ {
        "application/json"@
    } else if ext == "pdf"@ {
        "application/pdf"@
    } else if ext == "png"@ {
        "image/png"@
    } else if ext == "jpg"@ || ext == "jpeg"@ {
        "image/jpeg"@
    } else if ext == "gif"@ {
        "image/gif"@
    } else if ext == "zip"@ {
        "application/zip"@
    } else if ext == "csv"@ {
        "text/csv"@
    } else if ext == "wasm"@ {
        "application/wasm"@
    } else {
        "application/octet-stream"@
    }
}

/// The extension of `filename` in lower case: what follows its last dot, if it has one.
fn extension(filename: &str) -> (r: String)
    ensures
        r@ == crate::text::lower(extension_of(filename@)),
{
    let chars = chars_of(filename);
    let n: usize = chars.len();
    let mut start: usize = n;
    assert(chars@.subrange(n as int, n as int) =~= Seq::<char>::empty());
    assert(chars@.take(n as int) =~= chars@);
    assert(after_last_dot(chars@) =~= after_last_dot(chars@) + Seq::<char>::empty());
    while start > 0 && chars[start - 1] != '.'
        invariant
            start <= n,
            n == chars@.len(),
            chars@ == filename@,
            after_last_dot(filename@) == after_last_dot(chars@.take(start as int))
                + chars@.subrange(start as int, n as int),
            forall|k: int| start <= k < n ==> chars@[k] != '.',
        decreases start,
    {
        proof {
            let front = chars@.take(start as int);
            assert(front.last() == chars@[start - 1]);
            assert(front.drop_last() =~= chars@.take(start - 1));
            assert(after_last_dot(chars@.take(start - 1)).push(chars@[start - 1])
                + chars@.subrange(start as int, n as int) =~= after_last_dot(
                chars@.take(start - 1),
            ) + chars@.subrange(start - 1, n as int));
        }
        start -= 1;
    }
    if start == 0 {
        let none: String = String::new();
        assert(!filename@.contains('.'));
        assert(none@ =~= crate::text::lower(extension_of(filename@)));
        return none;
    }
    assert(filename@.contains('.')) by {
        assert(filename@[start - 1] == '.');
    }
    assert(after_last_dot(chars@.take(start as int)) =~= Seq::<char>::empty()) by {
        assert(chars@.take(start as int).last() == chars@[start - 1]);
    }
    let ghost ext = chars@.subrange(start as int, n as int);
    assert(after_last_dot(filename@) =~= ext);
    let mut out: Vec<char> = Vec::new();
    let mut i: usize = start;
    while i < n
        invariant
            start <= i <= n,
            n == chars@.len(),
            ext == chars@.subrange(start as int, n as int),
            out@ == crate::text::lower(ext).take(i - start),
        decreases n - i,
    {
        out.push(lower_of(chars[i]));
        assert(out@ =~= crate::text::lower(ext).take(i + 1 - start));
        i += 1;
    }
    assert(out@ =~= crate::text::lower(ext));
    text_of(out.as_slice())
}

/// The content type that the file name suggests.
fn guess_content_type(filename: &str) -> (r: &'static str)
    ensures
        r@ == content_type_of(crate::text::lower(extension_of(filename@))),
{
    let ext = extension(filename);
    let e = ext.as_str();
    if same_text(e, "txt") || same_text(e, "log") || same_text(e, "md") {
        "text/plain"
    } else if same_text(e, "html") || same_text(e, "htm") {
        "text/html"
    } else if same_text(e, "json") {
        "application/json"
    } else if same_text(e, "pdf") {
        "application/pdf"
    } else if same_text(e, "png") {
        "image/png"
    } else if same_text(e, "jpg") || same_text(e, "jpeg") {
        "image/jpeg"
    } else if same_text(e, "gif") {
        "image/gif"
    } else if same_text(e, "zip") {
        "application/zip"
    } else if same_text(e, "csv") {
        "text/csv"
    } else if same_text(e, "wasm") {
        "application/wasm"
    } else {
        "application/octet-stream"
    }
}

impl Attachment {
    /// An attachment of the given content type.
    pub fn new(filename: &str, content_type: &str, bytes: Vec<u8>) -> (r: Attachment)
        ensures
            r@ == (AttachmentModel {
                filename: filename@,
                content_type: content_type@,
                bytes: bytes@,
            }),
    {
        Attachment {
            filename: filename.to_owned(),
            content_type: content_type.to_owned(),
            bytes,
        }
    }

    /// An attachment whose content type is guessed from the extension of the file name.
    pub fn from_file(filename: &str, bytes: Vec<u8>) -> (r: Attachment)
        ensures
            r@ == (AttachmentModel {
                filename: filename@,
                content_type: content_type_of(crate::text::lower(extension_of(filename@))),
                bytes: bytes@,
            }),
    {
        Attachment {
            filename: filename.to_owned(),
            content_type: guess_content_type(filename).to_owned(),
            bytes,
        }
    }

    /// The bytes of the whole attachment, which get sealed; there is no attachment that has none.
    pub fn encode(&self) -> (r: Result<Vec<u8>, MailError>)
        ensures
            r is Ok,
            r->Ok_0@ == Attachment::wire(self@),
            Attachment::fits(self@),
    {
        let mut out: Vec<u8> = Vec::new();
        self.put(&mut out);
        assert(out@ =~= Attachment::wire(self@));
        Ok(out)
    }

    /// Reads an attachment from its bytes.
    pub fn decode(bytes: &[u8]) -> (r: Result<Attachment, MailError>)
        ensures
            match Attachment::parse(bytes@) {
                Some((a, _)) => r is Ok && r->Ok_0@ == a,
                None => r == Err::<Attachment, MailError>(MailError::Malformed(Format::Attachment)),
            },
    {
        match Attachment::get(bytes) {
            Some((a, _)) => Ok(a),
            None => Err(MailError::Malformed(Format::Attachment)),
        }
    }

    /// The size of the payload in bytes.
    pub fn len(&self) -> (r: usize)
        ensures
            r == self@.bytes.len(),
    {
        self.bytes.len()
    }

    /// Whether the payload is empty.
    pub fn is_empty(&self) -> (r: bool)
        ensures
            r == (self@.bytes.len() == 0),
    {
        self.bytes.len() == 0
    }
}

/// An attachment reads back from its bytes as itself.
pub proof fn lemma_attachment_round_trip(a: AttachmentModel)
    requires
        Attachment::fits(a),
    ensures
        Attachment::parse(Attachment::wire(a)) == Some((a, Seq::<u8>::empty())),
{
    let none = Seq::<u8>::empty();
    assert(Attachment::wire(a) + none =~= Attachment::wire(a));
    Attachment::lemma_reads_back(a, none);
}

} // verus!
