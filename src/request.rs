//! The request texts written to the socket: a GET, and a POST with a body.
use vstd::prelude::*;
use vstd::utf8::encode_utf8;
use crate::text::{decimal, push_decimal};

verus! {

/// The GET request for `target`: the request line, a `Host` header that
/// repeats the target, and the blank line that ends the headers.
pub open spec fn get_request(target: Seq<char>) -> Seq<char> {
    "GET / HTTP/1.1\r\nHost: "@ + target + "\r\n\r\n"@
}

/// The POST request for `target` carrying `body`: as the GET, plus a
/// `Content-Length` header that gives the body's length in UTF-8 bytes,
/// then the blank line and the body itself.
pub open spec fn post_request(target: Seq<char>, body: Seq<char>) -> Seq<char> {
    "POST / HTTP/1.1\r\nHost: "@ + target + "\r\nContent-Length: "@ + decimal(
        encode_utf8(body).len(),
    ) + "\r\n\r\n"@ + body
}

/// Builds the GET request text for `target`.
pub fn get_request_text(target: &str) -> (r: String)
    ensures
        r@ == get_request(target@),
{
    let mut r = String::from_str("GET / HTTP/1.1\r\nHost: ");
    r.append(target);
    r.append("\r\n\r\n");
    r
}

/// Builds the POST request text for `target` carrying `body`.
pub fn post_request_text(target: &str, body: &str) -> (r: String)
    requires
        encode_utf8(body@).len() <= usize::MAX,
    ensures
        r@ == post_request(target@, body@),
{
    let mut r = String::from_str("POST / HTTP/1.1\r\nHost: ");
    r.append(target);
    r.append("\r\nContent-Length: ");
    push_decimal(&mut r, body.len());
    r.append("\r\n\r\n");
    r.append(body);
    assert(r@ =~= post_request(target@, body@));
    r
}

} // verus!
