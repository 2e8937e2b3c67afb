//! What is sent back: the dispatch between listing and file, the content
//! type of a file, and the status and body of each failure.

use vstd::prelude::*;
use crate::resolve::{RequestError, Target, views};

verus! {

/// How a resolved target is answered.
#[derive(Clone, Copy, Debug, PartialEq, Eq, Structural)]
pub enum Dispatch {
    /// An HTML listing of the directory.
    Directory,
    /// The bytes of the file.
    File,
}

/// Chooses the answer from the directory flag of the target's metadata alone.
pub fn classify(is_dir: bool) -> (r: Dispatch)
    ensures
        r == (if is_dir { Dispatch::Directory } else { Dispatch::File }),
{
    if is_dir {
        Dispatch::Directory
    } else {
        Dispatch::File
    }
}

/// The extension of a file name: what follows its last `.`, where that dot
/// is not the first character (`.profile` has none, `a.` has an empty one).
pub open spec fn extension(name: Seq<char>) -> Option<Seq<char>>
    decreases name.len(),
{
    if name.len() == 0 {
        None
    } else if name.last() == '.' {
        if name.len() == 1 {
            None
        } else {
            Some(seq![])
        }
    } else {
        match extension(name.drop_last()) {
            Some(e) => Some(e.push(name.last())),
            None => None,
        }
    }
}

/// The content type of a file, from the extension of its name alone
/// (matched exactly, case included).
pub open spec fn content_type_spec(name: Seq<char>) -> Seq<char> {
    match extension(name) {
        Some(e) => {
            if e == "css"@ {
                "text/css; charset=utf-8"@
            } else if e == "htm"@ || e == "html"@ {
                "text/html; charset=utf-8"@
            } else if e == "json"@ {
                "application/json"@
            } else if e == "txt"@ {
                "text/plain; charset=utf-8"@
            } else if e == "xml"@ {
                "text/xml"@
            } else {
                "application/octet-stream"@
            }
        },
        None => "application/octet-stream"@,
    }
}

/// Relies on mime::TEXT_CSS_UTF_8, whose text is "text/css; charset=utf-8".
#[verifier::external_body]
fn mime_text_css() -> (r: String)
    ensures
        r@ == "text/css; charset=utf-8"@,
{
    mime::TEXT_CSS_UTF_8.to_string()
}

/// Relies on mime::TEXT_HTML_UTF_8, whose text is "text/html; charset=utf-8".
#[verifier::external_body]
fn mime_text_html() -> (r: String)
    ensures
        r@ == "text/html; charset=utf-8"@,
{
    mime::TEXT_HTML_UTF_8.to_string()
}

/// Relies on mime::APPLICATION_JSON, whose text is "application/json".
#[verifier::external_body]
fn mime_application_json() -> (r: String)
    ensures
        r@ == "application/json"@,
{
    mime::APPLICATION_JSON.to_string()
}

/// Relies on mime::TEXT_PLAIN_UTF_8, whose text is "text/plain; charset=utf-8".
#[verifier::external_body]
fn mime_text_plain() -> (r: String)
    ensures
        r@ == "text/plain; charset=utf-8"@,
{
    mime::TEXT_PLAIN_UTF_8.to_string()
}

/// Relies on mime::TEXT_XML, whose text is "text/xml".
#[verifier::external_body]
fn mime_text_xml() -> (r: String)
    ensures
        r@ == "text/xml"@,
{
    mime::TEXT_XML.to_string()
}

/// Relies on mime::APPLICATION_OCTET_STREAM, whose text is
/// "application/octet-stream".
#[verifier::external_body]
fn mime_octet_stream() -> (r: String)
    ensures
        r@ == "application/octet-stream"@,
{
    mime::APPLICATION_OCTET_STREAM.to_string()
}

/// Tells whether two strings hold the same characters.
pub fn same_text(a: &str, b: &str) -> (r: bool)
    ensures
        r == (a@ == b@),
{
    let n = a.unicode_len();
    if n != b.unicode_len() {
        return false;
    }
    let mut i: usize = 0;
    while i < n
        invariant
            n == a@.len(),
            n == b@.len(),
            i <= n,
            forall|k: int| 0 <= k < i ==> a@[k] == b@[k],
        decreases n - i,
    {
        if a.get_char(i) != b.get_char(i) {
            return false;
        }
        i = i + 1;
    }
    assert(a@ =~= b@);
    true
}

/// The extension of a file name, if it has one.
pub fn file_extension(name: &str) -> (r: Option<&str>)
    ensures
        match r {
            Some(e) => extension(name@) == Some(e@),
            None => extension(name@) is None,
        },
{
    let n = name.unicode_len();
    let mut last_dot: Option<usize> = None;
    let mut i: usize = 0;
    assert(name@.take(0) =~= seq![]);
    while i < n
        invariant
            n == name@.len(),
            i <= n,
            match last_dot {
                Some(k) => k < i && extension(name@.take(i as int)) == (if k == 0 {
                    None
                } else {
                    Some(name@.subrange(k + 1, i as int))
                }),
                None => extension(name@.take(i as int)) is None,
            },
        decreases n - i,
    {
        let c = name.get_char(i);
        assert(name@.take(i + 1).drop_last() =~= name@.take(i as int));
        if c == '.' {
            last_dot = Some(i);
            assert(name@.subrange(i + 1, i + 1) =~= seq![]);
        } else {
            match last_dot {
                Some(k) => {
                    assert(name@.subrange(k + 1, i + 1) =~= name@.subrange(k + 1, i as int).push(c));
                },
                None => {},
            }
        }
        i = i + 1;
    }
    assert(name@.take(n as int) =~= name@);
    match last_dot {
        Some(k) => {
            if k == 0 {
                None
            } else {
                Some(name.substring_char(k + 1, n))
            }
        },
        None => None,
    }
}

/// The content type of a file, from the extension of its name.
pub fn content_type_for(name: &str) -> (r: String)
    ensures
        r@ == content_type_spec(name@),
{
    match file_extension(name) {
        Some(e) => {
            if same_text(e, "css") {
                mime_text_css()
            } else if same_text(e, "htm") || same_text(e, "html") {
                mime_text_html()
            } else if same_text(e, "json") {
                mime_application_json()
            } else if same_text(e, "txt") {
                mime_text_plain()
            } else if same_text(e, "xml") {
                mime_text_xml()
            } else {
                mime_octet_stream()
            }
        },
        None => mime_octet_stream(),
    }
}


/// The name whose extension decides a file's content type: the last segment.
pub open spec fn last_name(segs: Seq<Seq<char>>) -> Seq<char> {
    if segs.len() == 0 { seq![] } else { segs.last() }
}

/// The head of a file response, sent before its bytes.
pub struct FileHead {
    pub status: u16,
    /// The byte count of the file, taken from its metadata.
    pub content_length: u64,
    pub content_type: String,
}

/// The head of the response that sends a target's file of `len` bytes.
pub fn file_head(target: &Target, len: u64) -> (r: FileHead)
    ensures
        r.status == 200,
        r.content_length == len,
        r.content_type@ == content_type_spec(last_name(views(target.segments@))),
{
    let n = target.segments.len();
    let content_type = if n == 0 {
        proof { reveal_strlit(""); }
        content_type_for("")
    } else {
        content_type_for(target.segments[n - 1].as_str())
    };
    FileHead { status: 200, content_length: len, content_type }
}

/// The kinds of file system failure that the answer tells apart.
#[derive(Clone, Copy, Debug, PartialEq, Eq, Structural)]
pub enum FsErrorKind {
    NotFound,
    PermissionDenied,
    Other,
}

/// Every failure of a request, with the cause's text for file system ones.
#[derive(Debug)]
pub enum ServeError {
    MalformedEncoding,
    InvalidPath,
    PathEscape,
    NotFound(String),
    PermissionDenied(String),
    IoFailure(String),
}

/// The failure that stands for a refused request path.
pub open spec fn request_failure(e: RequestError) -> ServeError {
    match e {
        RequestError::MalformedEncoding => ServeError::MalformedEncoding,
        RequestError::InvalidPath => ServeError::InvalidPath,
        RequestError::PathEscape => ServeError::PathEscape,
    }
}

/// The failure for a refused request path.
pub fn from_request_error(e: RequestError) -> (r: ServeError)
    ensures
        r == request_failure(e),
{
    match e {
        RequestError::MalformedEncoding => ServeError::MalformedEncoding,
        RequestError::InvalidPath => ServeError::InvalidPath,
        RequestError::PathEscape => ServeError::PathEscape,
    }
}

/// The failure for a file system error of `kind`, keeping its cause's text.
pub fn from_fs_error(kind: FsErrorKind, cause: String) -> (r: ServeError)
    ensures
        r == (match kind {
            FsErrorKind::NotFound => ServeError::NotFound(cause),
            FsErrorKind::PermissionDenied => ServeError::PermissionDenied(cause),
            FsErrorKind::Other => ServeError::IoFailure(cause),
        }),
{
    match kind {
        FsErrorKind::NotFound => ServeError::NotFound(cause),
        FsErrorKind::PermissionDenied => ServeError::PermissionDenied(cause),
        FsErrorKind::Other => ServeError::IoFailure(cause),
    }
}

/// The status that answers a failure: 400 for a refused path, 404, 403 and
/// 500 for a missing file, a denied permission and any other file system
/// failure.
pub open spec fn error_status(e: ServeError) -> u16 {
    match e {
        ServeError::MalformedEncoding | ServeError::InvalidPath | ServeError::PathEscape => 400,
        ServeError::NotFound(_) => 404,
        ServeError::PermissionDenied(_) => 403,
        ServeError::IoFailure(_) => 500,
    }
}

/// The plain text body that answers a failure: a short fixed text for a
/// refused path, the cause's text after "IO error: " otherwise.
pub open spec fn error_body(e: ServeError) -> Seq<char> {
    match e {
        ServeError::MalformedEncoding | ServeError::InvalidPath | ServeError::PathEscape => "Bad request"@,
        ServeError::NotFound(c) => "IO error: "@ + c@,
        ServeError::PermissionDenied(c) => "IO error: "@ + c@,
        ServeError::IoFailure(c) => "IO error: "@ + c@,
    }
}

/// A failure's answer.
pub struct ErrorReply {
    pub status: u16,
    pub body: String,
}

/// Builds the answer to a failure.
pub fn error_reply(e: &ServeError) -> (r: ErrorReply)
    ensures
        r.status == error_status(*e),
        r.body@ == error_body(*e),
{
    match e {
        ServeError::MalformedEncoding | ServeError::InvalidPath | ServeError::PathEscape => {
            ErrorReply { status: 400, body: String::from_str("Bad request") }
        },
        ServeError::NotFound(c) => {
            ErrorReply { status: 404, body: String::from_str("IO error: ").concat(c.as_str()) }
        },
        ServeError::PermissionDenied(c) => {
            ErrorReply { status: 403, body: String::from_str("IO error: ").concat(c.as_str()) }
        },
        ServeError::IoFailure(c) => {
            ErrorReply { status: 500, body: String::from_str("IO error: ").concat(c.as_str()) }
        },
    }
}

/// A refused request path, malformed encoding included, is answered with
/// 400 and the fixed short body, never with a server error.
pub proof fn lemma_refusal_is_bad_request(e: RequestError)
    ensures
        error_status(request_failure(e)) == 400,
        error_body(request_failure(e)) == "Bad request"@,
{
}

}
