use vstd::prelude::*;
use vstd::string::StringSliceAdditionalSpecFns;

use crate::bytes::{append_bytes, ends_with, has_suffix};
use crate::decimal::{dec_bytes, push_decimal};

verus! {

/// One HTTP response: status line, a fixed small set of headers, and body.
pub struct Response {
    pub status: u16,
    pub reason: &'static str,
    /// The `Content-Type` header, where the response has one.
    pub content_type: Option<&'static str>,
    /// Whether the `Access-Control-Allow-Methods` and
    /// `Access-Control-Allow-Headers` headers are sent besides
    /// `Access-Control-Allow-Origin`.
    pub cors_methods: bool,
    pub body: Vec<u8>,
}

/// A response with its body as a sequence.
pub struct ResponseView {
    pub status: u16,
    pub reason: &'static str,
    pub content_type: Option<&'static str>,
    pub cors_methods: bool,
    pub body: Seq<u8>,
}

impl View for Response {
    type V = ResponseView;

    open spec fn view(&self) -> ResponseView {
        ResponseView {
            status: self.status,
            reason: self.reason,
            content_type: self.content_type,
            cors_methods: self.cors_methods,
            body: self.body@,
        }
    }
}

/// A line ending.
pub open spec fn crlf() -> Seq<u8> {
    "\r\n".spec_bytes()
}

/// The `Content-Length` line, giving the body's exact length. Only a `204`
/// answer without a body goes without one.
pub open spec fn length_line(status: u16, len: nat) -> Seq<u8> {
    if status == 204 && len == 0 {
        Seq::empty()
    } else {
        "Content-Length: ".spec_bytes() + dec_bytes(len) + crlf()
    }
}

/// The `Content-Type` line, where the response has one.
pub open spec fn type_line(content_type: Option<&'static str>) -> Seq<u8> {
    match content_type {
        Some(t) => "Content-Type: ".spec_bytes() + t.spec_bytes() + crlf(),
        None => Seq::empty(),
    }
}

/// The CORS lines: `Access-Control-Allow-Origin` always, the other two on
/// request.
pub open spec fn cors_lines(cors_methods: bool) -> Seq<u8> {
    "Access-Control-Allow-Origin: *\r\n".spec_bytes() + if cors_methods {
        "Access-Control-Allow-Methods: GET, POST, OPTIONS\r\n".spec_bytes()
            + "Access-Control-Allow-Headers: Content-Type\r\n".spec_bytes()
    } else {
        Seq::empty()
    }
}

/// The status line, `HTTP/1.1 CODE REASON`.
pub open spec fn status_line(status: u16, reason: &'static str) -> Seq<u8> {
    "HTTP/1.1 ".spec_bytes() + dec_bytes(status as nat) + " ".spec_bytes() + reason.spec_bytes()
        + crlf()
}

/// The header block of a response, up to and including the empty line.
pub open spec fn head_bytes(r: ResponseView) -> Seq<u8> {
    status_line(r.status, r.reason) + length_line(r.status, r.body.len()) + type_line(
        r.content_type,
    ) + cors_lines(r.cors_methods) + crlf()
}

/// The bytes of a response on the wire: header block, then body.
pub open spec fn wire_bytes(r: ResponseView) -> Seq<u8> {
    head_bytes(r) + r.body
}

fn push_status_line(out: &mut Vec<u8>, status: u16, reason: &'static str)
    ensures
        final(out)@ == old(out)@ + status_line(status, reason),
{
    append_bytes(out, "HTTP/1.1 ".as_bytes());
    push_decimal(out, status as u64);
    append_bytes(out, " ".as_bytes());
    append_bytes(out, reason.as_bytes());
    append_bytes(out, "\r\n".as_bytes());
    proof {
        assert(final(out)@ =~= old(out)@ + status_line(status, reason));
    }
}

fn push_length_line(out: &mut Vec<u8>, status: u16, len: usize)
    ensures
        final(out)@ == old(out)@ + length_line(status, len as nat),
{
    if status != 204 || len != 0 {
        append_bytes(out, "Content-Length: ".as_bytes());
        push_decimal(out, len as u64);
        append_bytes(out, "\r\n".as_bytes());
    }
    proof {
        assert(final(out)@ =~= old(out)@ + length_line(status, len as nat));
    }
}

fn push_type_line(out: &mut Vec<u8>, content_type: Option<&'static str>)
    ensures
        final(out)@ == old(out)@ + type_line(content_type),
{
    match content_type {
        Some(t) => {
            append_bytes(out, "Content-Type: ".as_bytes());
            append_bytes(out, t.as_bytes());
            append_bytes(out, "\r\n".as_bytes());
        },
        None => {},
    }
    proof {
        assert(final(out)@ =~= old(out)@ + type_line(content_type));
    }
}

fn push_cors_lines(out: &mut Vec<u8>, cors_methods: bool)
    ensures
        final(out)@ == old(out)@ + cors_lines(cors_methods),
{
    append_bytes(out, "Access-Control-Allow-Origin: *\r\n".as_bytes());
    if cors_methods {
        append_bytes(out, "Access-Control-Allow-Methods: GET, POST, OPTIONS\r\n".as_bytes());
        append_bytes(out, "Access-Control-Allow-Headers: Content-Type\r\n".as_bytes());
    }
    proof {
        assert(final(out)@ =~= old(out)@ + cors_lines(cors_methods));
    }
}

impl Response {
    /// The bytes to write back to the client.
    pub fn to_bytes(&self) -> (r: Vec<u8>)
        ensures
            r@ == wire_bytes(self@),
    {
        let mut out: Vec<u8> = Vec::new();
        push_status_line(&mut out, self.status, self.reason);
        push_length_line(&mut out, self.status, self.body.len());
        push_type_line(&mut out, self.content_type);
        push_cors_lines(&mut out, self.cors_methods);
        append_bytes(&mut out, "\r\n".as_bytes());
        append_bytes(&mut out, self.body.as_slice());
        proof {
            assert(out@ =~= wire_bytes(self@));
        }
        out
    }
}

/// The media type served for a file name, by its extension.
pub open spec fn content_type_of(name: Seq<u8>) -> &'static str {
    if has_suffix(name, ".html".spec_bytes()) {
        "text/html"
    } else if has_suffix(name, ".css".spec_bytes()) {
        "text/css"
    } else if has_suffix(name, ".js".spec_bytes()) {
        "application/javascript"
    } else if has_suffix(name, ".png".spec_bytes()) {
        "image/png"
    } else if has_suffix(name, ".jpg".spec_bytes()) || has_suffix(name, ".jpeg".spec_bytes()) {
        "image/jpeg"
    } else if has_suffix(name, ".gif".spec_bytes()) {
        "image/gif"
    } else if has_suffix(name, ".svg".spec_bytes()) {
        "image/svg+xml"
    } else if has_suffix(name, ".ico".spec_bytes()) {
        "image/x-icon"
    } else {
        "application/octet-stream"
    }
}

/// Returns the media type of a file, chosen by its extension.
pub fn get_content_type(filename: &str) -> (r: &'static str)
    ensures
        r == content_type_of(filename.spec_bytes()),
{
    let name = filename.as_bytes();
    if ends_with(name, ".html".as_bytes()) {
        "text/html"
    } else if ends_with(name, ".css".as_bytes()) {
        "text/css"
    } else if ends_with(name, ".js".as_bytes()) {
        "application/javascript"
    } else if ends_with(name, ".png".as_bytes()) {
        "image/png"
    } else if ends_with(name, ".jpg".as_bytes()) || ends_with(name, ".jpeg".as_bytes()) {
        "image/jpeg"
    } else if ends_with(name, ".gif".as_bytes()) {
        "image/gif"
    } else if ends_with(name, ".svg".as_bytes()) {
        "image/svg+xml"
    } else if ends_with(name, ".ico".as_bytes()) {
        "image/x-icon"
    } else {
        "application/octet-stream"
    }
}

/// The body of an error page: `<html><body><h1>CODE MESSAGE</h1></body></html>`.
pub open spec fn error_page(code: u16, message: &'static str) -> Seq<u8> {
    "<html><body><h1>".spec_bytes() + dec_bytes(code as nat) + " ".spec_bytes()
        + message.spec_bytes() + "</h1></body></html>".spec_bytes()
}

/// The body of a not-found response when no custom document is available.
pub open spec fn not_found_fallback() -> Seq<u8> {
    "404 Not Found".spec_bytes()
}

/// The view of an HTML error page with the given status code and reason.
pub open spec fn error_view(code: u16, message: &'static str) -> ResponseView {
    ResponseView {
        status: code,
        reason: message,
        content_type: Some("text/html"),
        cors_methods: false,
        body: error_page(code, message),
    }
}

/// The view of the answer to a rate-limited request.
pub open spec fn too_many_view() -> ResponseView {
    ResponseView {
        status: 429,
        reason: "Too Many Requests",
        content_type: Some("text/plain"),
        cors_methods: false,
        body: "Rate limit exceeded".spec_bytes(),
    }
}

/// The view of the answer to a CORS preflight request.
pub open spec fn preflight_view() -> ResponseView {
    ResponseView {
        status: 204,
        reason: "No Content",
        content_type: None,
        cors_methods: true,
        body: Seq::empty(),
    }
}

/// The view of the answer that carries the visitor count.
pub open spec fn count_view(count: u64) -> ResponseView {
    ResponseView {
        status: 200,
        reason: "OK",
        content_type: Some("text/plain"),
        cors_methods: true,
        body: dec_bytes(count as nat),
    }
}

/// The view of a served static file.
pub open spec fn file_view(path: Seq<u8>, contents: Seq<u8>) -> ResponseView {
    ResponseView {
        status: 200,
        reason: "OK",
        content_type: Some(content_type_of(path)),
        cors_methods: true,
        body: contents,
    }
}

/// The view of the not-found answer.
pub open spec fn not_found_view(custom: Option<Seq<u8>>) -> ResponseView {
    ResponseView {
        status: 404,
        reason: "NOT FOUND",
        content_type: Some("text/html"),
        cors_methods: true,
        body: match custom {
            Some(doc) => doc,
            None => not_found_fallback(),
        },
    }
}

/// An HTML error page with the given status code and reason phrase.
pub fn error_response(code: u16, message: &'static str) -> (r: Response)
    ensures
        r@ == error_view(code, message),
{
    let mut body: Vec<u8> = Vec::new();
    append_bytes(&mut body, "<html><body><h1>".as_bytes());
    push_decimal(&mut body, code as u64);
    append_bytes(&mut body, " ".as_bytes());
    append_bytes(&mut body, message.as_bytes());
    append_bytes(&mut body, "</h1></body></html>".as_bytes());
    proof {
        assert(body@ =~= error_page(code, message));
    }
    Response { status: code, reason: message, content_type: Some("text/html"), cors_methods: false, body }
}

/// The answer to a request that the rate limiter rejected.
pub fn too_many_requests() -> (r: Response)
    ensures
        r@ == too_many_view(),
{
    let mut body: Vec<u8> = Vec::new();
    append_bytes(&mut body, "Rate limit exceeded".as_bytes());
    proof {
        assert(body@ =~= "Rate limit exceeded".spec_bytes());
    }
    Response {
        status: 429,
        reason: "Too Many Requests",
        content_type: Some("text/plain"),
        cors_methods: false,
        body,
    }
}

/// The answer to a CORS preflight request: no body.
pub fn preflight_response() -> (r: Response)
    ensures
        r@ == preflight_view(),
{
    Response {
        status: 204,
        reason: "No Content",
        content_type: None,
        cors_methods: true,
        body: Vec::new(),
    }
}

/// The visitor count, as decimal text.
pub fn visitor_count_response(count: u64) -> (r: Response)
    ensures
        r@ == count_view(count),
{
    let mut body: Vec<u8> = Vec::new();
    push_decimal(&mut body, count);
    proof {
        assert(body@ =~= dec_bytes(count as nat));
    }
    Response { status: 200, reason: "OK", content_type: Some("text/plain"), cors_methods: true, body }
}

/// A static file found at `path`, served whole.
pub fn file_response(path: &str, contents: Vec<u8>) -> (r: Response)
    ensures
        r@ == file_view(path.spec_bytes(), contents@),
{
    let t = get_content_type(path);
    Response { status: 200, reason: "OK", content_type: Some(t), cors_methods: true, body: contents }
}

/// The not-found answer: the custom not-found document when one could be
/// read, else a fixed plain text.
pub fn not_found_response(custom: Option<Vec<u8>>) -> (r: Response)
    ensures
        r@ == not_found_view(
            match custom {
                Some(doc) => Some(doc@),
                None => None,
            },
        ),
{
    let body = match custom {
        Some(doc) => doc,
        None => {
            let mut b: Vec<u8> = Vec::new();
            append_bytes(&mut b, "404 Not Found".as_bytes());
            proof {
                assert(b@ =~= not_found_fallback());
            }
            b
        },
    };
    Response {
        status: 404,
        reason: "NOT FOUND",
        content_type: Some("text/html"),
        cors_methods: true,
        body,
    }
}

/// A served file goes out whole: the wire bytes are the header block
/// followed by exactly the file's bytes, and the header block announces
/// their exact length.
pub proof fn lemma_file_round_trip(path: Seq<u8>, contents: Seq<u8>)
    ensures
        wire_bytes(file_view(path, contents)).subrange(
            head_bytes(file_view(path, contents)).len() as int,
            wire_bytes(file_view(path, contents)).len() as int,
        ) == contents,
        head_bytes(file_view(path, contents)) == status_line(200, "OK") + ("Content-Length: ".spec_bytes()
            + dec_bytes(contents.len()) + crlf()) + type_line(Some(content_type_of(path)))
            + cors_lines(true) + crlf(),
{
    let v = file_view(path, contents);
    assert(wire_bytes(v).subrange(head_bytes(v).len() as int, wire_bytes(v).len() as int) =~= contents);
}

} // verus!
