//! The request classifier: a pure function from the received bytes to one
//! of a small fixed set of canned HTTP/1.1 responses. Only the request line
//! is inspected — a `GET` method token, a space, and a path — and anything
//! else maps to the not-found response. The full request is assumed to
//! arrive in one receive; there is no partial parsing.

use vstd::prelude::*;
use vstd::string::StrSliceExecFns;
use vstd::utf8::encode_utf8;

verus! {

/// Which canned response a request maps to.
#[derive(Clone, Copy, PartialEq, Eq, Structural, Debug)]
pub enum ResponseKind {
    Hello,
    Json,
    Ping,
    NotFound,
}

/// True when the request starts with `GET ` followed by `/`.
pub open spec fn spec_is_get_root(req: Seq<u8>) -> bool {
    req.len() >= 5 && req[0] == 'G' as u8 && req[1] == 'E' as u8 && req[2] == 'T' as u8
        && req[3] == ' ' as u8 && req[4] == '/' as u8
}

/// True when the byte after the root `/` ends the path token: a space,
/// or the query mark. Anything else makes the path longer than `/`.
pub open spec fn spec_root_path_ends(req: Seq<u8>) -> bool {
    req.len() >= 6 && (req[5] == ' ' as u8 || req[5] == '?' as u8)
}

/// True when the request line starts with `GET /json`.
pub open spec fn spec_is_json_path(req: Seq<u8>) -> bool {
    req.len() >= 9 && req[5] == 'j' as u8 && req[6] == 's' as u8 && req[7] == 'o' as u8
        && req[8] == 'n' as u8
}

/// True when the request line starts with `GET /ping`.
pub open spec fn spec_is_ping_path(req: Seq<u8>) -> bool {
    req.len() >= 9 && req[5] == 'p' as u8 && req[6] == 'i' as u8 && req[7] == 'n' as u8
        && req[8] == 'g' as u8
}

/// The response a request maps to. Every request that is not a well-formed
/// minimal `GET` request line for a known path maps to the not-found
/// response.
pub open spec fn spec_classify(req: Seq<u8>) -> ResponseKind {
    if !spec_is_get_root(req) {
        ResponseKind::NotFound
    } else if spec_root_path_ends(req) {
        ResponseKind::Hello
    } else if req.len() >= 6 && req[5] == 'j' as u8 {
        if spec_is_json_path(req) {
            ResponseKind::Json
        } else {
            ResponseKind::NotFound
        }
    } else if req.len() >= 6 && req[5] == 'p' as u8 {
        if spec_is_ping_path(req) {
            ResponseKind::Ping
        } else {
            ResponseKind::NotFound
        }
    } else {
        ResponseKind::NotFound
    }
}

/// Classifies the first `n` bytes of `buf`: the filled portion of a
/// connection's receive buffer.
pub fn classify(buf: &Vec<u8>, n: usize) -> (r: ResponseKind)
    requires
        n <= buf@.len(),
    ensures
        r == spec_classify(buf@.take(n as int)),
{
    let ghost req = buf@.take(n as int);
    if n < 5 {
        return ResponseKind::NotFound;
    }
    if !(buf[0] == ('G' as u8) && buf[1] == ('E' as u8) && buf[2] == ('T' as u8) && buf[3] == (' ' as u8) && buf[4] == ('/' as u8)) {
        return ResponseKind::NotFound;
    }
    if n >= 6 && (buf[5] == (' ' as u8) || buf[5] == ('?' as u8)) {
        return ResponseKind::Hello;
    }
    if n >= 6 && buf[5] == ('j' as u8) {
        if n >= 9 && buf[6] == ('s' as u8) && buf[7] == ('o' as u8) && buf[8] == ('n' as u8) {
            return ResponseKind::Json;
        }
        return ResponseKind::NotFound;
    }
    if n >= 6 && buf[5] == ('p' as u8) {
        if n >= 9 && buf[6] == ('i' as u8) && buf[7] == ('n' as u8) && buf[8] == ('g' as u8) {
            return ResponseKind::Ping;
        }
        return ResponseKind::NotFound;
    }
    ResponseKind::NotFound
}

/// The characters of each canned response: status line, `Content-Type`,
/// `Content-Length`, `Connection: keep-alive`, a blank line, and the body.
pub open spec fn spec_response_chars(k: ResponseKind) -> Seq<char> {
    match k {
        ResponseKind::Hello => (
        "HTTP/1.1 200 OK\r\nContent-Type: text/plain\r\nContent-Length: 13\r\nConnection: keep-alive\r\n\r\nHello, World!"@
        ),
        ResponseKind::Json => (
        "HTTP/1.1 200 OK\r\nContent-Type: application/json\r\nContent-Length: 27\r\nConnection: keep-alive\r\n\r\n{\"message\":\"Hello, World!\"}"@
        ),
        ResponseKind::Ping => (
        "HTTP/1.1 200 OK\r\nContent-Type: text/plain\r\nContent-Length: 4\r\nConnection: keep-alive\r\n\r\npong"@
        ),
        ResponseKind::NotFound => (
        "HTTP/1.1 404 Not Found\r\nContent-Type: text/plain\r\nContent-Length: 9\r\nConnection: keep-alive\r\n\r\nNot Found"@
        ),
    }
}

/// The bytes of each canned response: the UTF-8 encoding of its characters
/// (every response is plain ASCII, so one byte per character).
pub open spec fn spec_response(k: ResponseKind) -> Seq<u8> {
    encode_utf8(spec_response_chars(k))
}

/// The canned response for a kind, as a string slice.
pub fn response_str(k: ResponseKind) -> (r: &'static str)
    ensures
        r@ == spec_response_chars(k),
{
    match k {
        ResponseKind::Hello => (
        "HTTP/1.1 200 OK\r\nContent-Type: text/plain\r\nContent-Length: 13\r\nConnection: keep-alive\r\n\r\nHello, World!"
        ),
        ResponseKind::Json => (
        "HTTP/1.1 200 OK\r\nContent-Type: application/json\r\nContent-Length: 27\r\nConnection: keep-alive\r\n\r\n{\"message\":\"Hello, World!\"}"
        ),
        ResponseKind::Ping => (
        "HTTP/1.1 200 OK\r\nContent-Type: text/plain\r\nContent-Length: 4\r\nConnection: keep-alive\r\n\r\npong"
        ),
        ResponseKind::NotFound => (
        "HTTP/1.1 404 Not Found\r\nContent-Type: text/plain\r\nContent-Length: 9\r\nConnection: keep-alive\r\n\r\nNot Found"
        ),
    }
}

/// The canned response for a kind, as the bytes that go on the wire.
pub fn response_bytes(k: ResponseKind) -> (r: Vec<u8>)
    ensures
        r@ == spec_response(k),
{
    response_str(k).as_bytes_vec()
}

} // verus!
